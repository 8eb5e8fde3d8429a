//! The agentic loop and its context compaction, as a state machine.
//!
//! The loop owns the conversation, because a summary replaces history. Two
//! mechanisms keep it within the window of the model:
//!
//! - before every model call, when the estimated input is near the window, a
//!   model-written summary replaces the compactable prefix;
//! - when the provider refuses a request for its size, the prefix is replaced by
//!   the deterministic digest first, the dropped items are dumped, a read-only
//!   run writes a precise summary from the dump, and the request is sent again,
//!   once.
//!
//! The machine decides; whoever drives it performs the `Action` it asks for and
//! reports back with an `Event`.

use vstd::prelude::*;

use crate::compaction;
use crate::compaction::Plan;
use crate::conversation;
use crate::conversation::{CallView, ConversationItem, ItemView, ToolCall, Usage};
use crate::text;

verus! {

/// Output limit per model call.
pub const MAX_OUTPUT_TOKENS: u64 = 8192;

/// Digest bound when no model summary is available.
pub const DIGEST_MAX_CHARS: usize = 2_400;

/// The first line of the message that stands in for a dropped prefix.
pub const SUMMARY_PREFIX: &'static str = "[Earlier conversation summary]";

/// What a tool call gets for an answer in a run without tools.
pub const NO_TOOLS: &'static str = "no tools are available in this run";

// ---------------------------------------------------------------------------
// Requests, replies, records
// ---------------------------------------------------------------------------

/// One entry of the tool menu. The parameters are the compact JSON text.
#[derive(Debug, Clone, PartialEq, Eq)]
pub struct ToolSpec {
    pub name: String,
    pub description: String,
    pub parameters: String,
}

/// What a run is asked to do.
#[derive(Debug, Clone)]
pub struct RunRequest {
    pub system_prompt: String,
    pub user_prompt: String,
    /// Whether tools can be run at all.
    pub has_tools: bool,
    /// The tool menu; it is sent with every request and cannot be compacted.
    pub specs: Vec<ToolSpec>,
    pub max_tool_calls: u32,
}

/// What the model answered.
#[derive(Debug, Clone)]
pub struct ChatReply {
    pub text: String,
    pub tool_calls: Vec<ToolCall>,
    pub usage: Usage,
}

/// Why a model call failed.
#[derive(Debug, Clone, PartialEq, Eq)]
pub enum AgentError {
    /// The request exceeds the window of the model.
    ContextOverflow(String),
    Backend(String),
}

/// One tool call that was executed.
#[derive(Debug, Clone, PartialEq, Eq)]
pub struct ToolCallRecord {
    pub name: String,
    pub result_bytes: u128,
}

/// What a menu entry holds.
pub struct SpecView {
    pub name: Seq<char>,
    pub description: Seq<char>,
    pub parameters: Seq<char>,
}

impl View for ToolSpec {
    type V = SpecView;

    open spec fn view(&self) -> SpecView {
        SpecView {
            name: self.name@,
            description: self.description@,
            parameters: self.parameters@,
        }
    }
}

/// What a request holds.
#[verifier::ext_equal]
pub struct RequestView {
    pub system_prompt: Seq<char>,
    pub user_prompt: Seq<char>,
    pub has_tools: bool,
    pub specs: Seq<SpecView>,
    pub max_tool_calls: int,
}

/// The contents of a menu.
pub open spec fn spec_views(specs: Seq<ToolSpec>) -> Seq<SpecView> {
    specs.map_values(|s: ToolSpec| s@)
}

impl View for RunRequest {
    type V = RequestView;

    open spec fn view(&self) -> RequestView {
        RequestView {
            system_prompt: self.system_prompt@,
            user_prompt: self.user_prompt@,
            has_tools: self.has_tools,
            specs: spec_views(self.specs@),
            max_tool_calls: self.max_tool_calls as int,
        }
    }
}

/// What a reply holds.
#[verifier::ext_equal]
pub struct ReplyView {
    pub text: Seq<char>,
    pub tool_calls: Seq<CallView>,
    pub usage: Usage,
}

impl View for ChatReply {
    type V = ReplyView;

    open spec fn view(&self) -> ReplyView {
        ReplyView {
            text: self.text@,
            tool_calls: conversation::call_views(self.tool_calls@),
            usage: self.usage,
        }
    }
}

/// What an error holds.
pub enum ErrorView {
    ContextOverflow(Seq<char>),
    Backend(Seq<char>),
}

impl View for AgentError {
    type V = ErrorView;

    open spec fn view(&self) -> ErrorView {
        match self {
            AgentError::ContextOverflow(message) => ErrorView::ContextOverflow(message@),
            AgentError::Backend(message) => ErrorView::Backend(message@),
        }
    }
}

/// What a record holds.
pub struct RecordView {
    pub name: Seq<char>,
    pub result_bytes: int,
}

impl View for ToolCallRecord {
    type V = RecordView;

    open spec fn view(&self) -> RecordView {
        RecordView { name: self.name@, result_bytes: self.result_bytes as int }
    }
}

/// The contents of a trace.
pub open spec fn record_views(trace: Seq<ToolCallRecord>) -> Seq<RecordView> {
    trace.map_values(|r: ToolCallRecord| r@)
}

// ---------------------------------------------------------------------------
// Size of a call
// ---------------------------------------------------------------------------

/// Tokens of one menu entry.
pub open spec fn spec_cost(spec: SpecView) -> int {
    compaction::tokens(spec.name) + compaction::tokens(spec.description) + compaction::tokens(
        spec.parameters,
    )
}

/// Tokens of a menu.
pub open spec fn menu_cost(specs: Seq<SpecView>) -> int
    decreases specs.len(),
{
    if specs.len() == 0 {
        0
    } else {
        menu_cost(specs.drop_last()) + spec_cost(specs.last())
    }
}

/// Estimated tokens a call carries: system prompt, conversation and tool menu.
pub open spec fn call_cost(
    system_prompt: Seq<char>,
    items: Seq<ItemView>,
    specs: Seq<SpecView>,
) -> int {
    compaction::tokens(system_prompt) + compaction::conversation_cost(items) + menu_cost(specs)
}

proof fn lemma_spec_cost_nonneg(spec: SpecView)
    ensures
        0 <= spec_cost(spec),
{
    compaction::lemma_tokens_bounded(spec.name);
    compaction::lemma_tokens_bounded(spec.description);
    compaction::lemma_tokens_bounded(spec.parameters);
}

proof fn lemma_menu_cost_take(specs: Seq<SpecView>, n: int)
    requires
        0 <= n <= specs.len(),
    ensures
        0 <= menu_cost(specs.take(n)) <= menu_cost(specs),
    decreases specs.len(),
{
    if n == specs.len() {
        assert(specs.take(n) =~= specs);
        if n > 0 {
            lemma_menu_cost_take(specs.drop_last(), n - 1);
            assert(specs.drop_last().take(n - 1) =~= specs.drop_last());
            lemma_spec_cost_nonneg(specs.last());
        }
    } else {
        lemma_menu_cost_take(specs.drop_last(), n);
        assert(specs.drop_last().take(n) =~= specs.take(n));
        lemma_spec_cost_nonneg(specs.last());
    }
}

/// Tokens of a menu, unless they exceed a limit.
fn menu_tokens_within(specs: &[ToolSpec], limit: u128) -> (r: Option<u128>)
    requires
        limit <= u64::MAX,
    ensures
        match r {
            Some(n) => n == menu_cost(spec_views(specs@)) && n <= limit,
            None => menu_cost(spec_views(specs@)) > limit,
        },
{
    let ghost all = spec_views(specs@);
    let mut sum: u128 = 0;
    let mut i: usize = 0;
    assert(all.take(0) =~= Seq::empty());
    while i < specs.len()
        invariant
            i <= specs@.len(),
            all == spec_views(specs@),
            sum == menu_cost(all.take(i as int)),
            sum <= limit <= u64::MAX,
        decreases specs@.len() - i,
    {
        proof {
            lemma_menu_cost_take(all, i + 1);
            assert(all.take(i + 1).drop_last() =~= all.take(i as int));
            assert(all.take(i + 1).last() == specs@[i as int]@);
        }
        let name: u64 = compaction::estimate_tokens(specs[i].name.as_str());
        let description: u64 = compaction::estimate_tokens(specs[i].description.as_str());
        let parameters: u64 = compaction::estimate_tokens(specs[i].parameters.as_str());
        sum = sum + name as u128 + description as u128 + parameters as u128;
        if sum > limit {
            return None;
        }
        i = i + 1;
    }
    assert(all.take(i as int) =~= all);
    Some(sum)
}

/// Estimated tokens a call carries, unless they exceed the range of the result.
pub fn call_tokens(
    system_prompt: &str,
    items: &[ConversationItem],
    specs: &[ToolSpec],
) -> (r: Option<u64>)
    ensures
        match r {
            Some(n) => n == call_cost(
                system_prompt@,
                conversation::item_views(items@),
                spec_views(specs@),
            ),
            None => call_cost(
                system_prompt@,
                conversation::item_views(items@),
                spec_views(specs@),
            ) > u64::MAX,
        },
{
    let own: u128 = compaction::estimate_tokens(system_prompt) as u128;
    proof {
        compaction::lemma_conversation_cost_nonneg(conversation::item_views(items@));
        lemma_menu_cost_take(spec_views(specs@), 0);
    }
    match compaction::conversation_tokens_within(items, u64::MAX as u128 - own) {
        Some(talk) => match menu_tokens_within(specs, u64::MAX as u128 - own - talk) {
            Some(menu) => Some((own + talk + menu) as u64),
            None => None,
        },
        None => None,
    }
}

// ---------------------------------------------------------------------------
// Summaries in the conversation
// ---------------------------------------------------------------------------

/// The message that stands in for a dropped prefix.
pub open spec fn summary_message(summary: Seq<char>) -> ItemView {
    ItemView::User { text: SUMMARY_PREFIX@ + "\n"@ + summary }
}

/// The conversation after the items from `start` to `cut` were replaced by a
/// summary; what stands before and behind them stays.
pub open spec fn replaced_by(
    items: Seq<ItemView>,
    start: int,
    cut: int,
    summary: Seq<char>,
) -> Seq<ItemView> {
    items.take(start) + seq![summary_message(summary)] + items.skip(cut + 1)
}

/// The summary already standing in the conversation, if any.
pub open spec fn standing_in(items: Seq<ItemView>) -> Option<Seq<char>> {
    if items.len() > 0 && items[0] is User && text::begins(items[0].text(), SUMMARY_PREFIX@) {
        Some(items[0].text())
    } else {
        None
    }
}

/// The message that stands in for a dropped prefix.
fn summary_item(summary: &str) -> (r: ConversationItem)
    ensures
        r@ == summary_message(summary@),
{
    let mut body = SUMMARY_PREFIX.to_owned();
    body.append("\n");
    body.append(summary);
    ConversationItem::User { text: body }
}

/// Replace the planned range of `items` with `summary`. Pinned items in front of
/// the range and the tail behind it stay as they are.
pub fn apply_plan(items: Vec<ConversationItem>, plan: Plan, summary: &str) -> (r: Vec<
    ConversationItem,
>)
    requires
        plan.start <= plan.cut < items@.len(),
    ensures
        conversation::item_views(r@) == conversation::item_views(items@).take(plan.start as int)
            + seq![summary_message(summary@)] + conversation::item_views(items@).skip(plan.cut + 1),
{
    let n: usize = items.len();
    let mut out = conversation::copy_items(&items, 0, plan.start);
    let ghost pinned = out@;
    out.push(summary_item(summary));
    let ghost first = out@;
    let mut tail = conversation::copy_items(&items, plan.cut + 1, n);
    let ghost kept = tail@;
    out.append(&mut tail);
    proof {
        let all = conversation::item_views(items@);
        conversation::lemma_items_push(pinned, first.last());
        assert(first =~= pinned.push(first.last()));
        assert(conversation::item_views(out@) =~= conversation::item_views(first)
            + conversation::item_views(kept));
        assert(all.subrange(0, plan.start as int) =~= all.take(plan.start as int));
        assert(all.subrange(plan.cut + 1, n as int) =~= all.skip(plan.cut + 1));
        assert(conversation::item_views(first) =~= all.take(plan.start as int)
            + seq![summary_message(summary@)]);
    }
    out
}

/// The summary already standing in the conversation, if any.
pub fn previous_summary(items: &[ConversationItem]) -> (r: Option<String>)
    ensures
        text::opt_view(r) == standing_in(conversation::item_views(items@)),
{
    if items.len() == 0 {
        return None;
    }
    assert(conversation::item_views(items@)[0] == items@[0]@);
    match &items[0] {
        ConversationItem::User { text } => {
            let chars = text::chars_of(text.as_str());
            let prefix = text::chars_of(SUMMARY_PREFIX);
            if text::starts_with(&chars, &prefix) {
                Some(text.clone())
            } else {
                None
            }
        },
        _ => None,
    }
}

/// A compaction replaces exactly the planned range, by one message: what is pinned
/// in front of it and the tail behind it stay verbatim and in order.
pub proof fn law_compaction_keeps_the_rest(
    items: Seq<ItemView>,
    start: int,
    cut: int,
    summary: Seq<char>,
)
    requires
        0 <= start <= cut < items.len(),
    ensures
        replaced_by(items, start, cut, summary).len() == items.len() - (cut - start),
        replaced_by(items, start, cut, summary).take(start) == items.take(start),
        replaced_by(items, start, cut, summary)[start] == summary_message(summary),
        replaced_by(items, start, cut, summary).skip(start + 1) == items.skip(cut + 1),
{
    let now = replaced_by(items, start, cut, summary);
    assert(now.take(start) =~= items.take(start));
    assert(now.skip(start + 1) =~= items.skip(cut + 1));
}

/// A summary that a compaction wrote at the front is found again as the standing
/// summary.
pub proof fn law_summary_is_found_again(items: Seq<ItemView>, cut: int, summary: Seq<char>)
    requires
        0 <= cut < items.len(),
    ensures
        standing_in(replaced_by(items, 0, cut, summary)) == Some(
            SUMMARY_PREFIX@ + "\n"@ + summary,
        ),
{
    let all = SUMMARY_PREFIX@ + "\n"@ + summary;
    assert(all.subrange(0, SUMMARY_PREFIX@.len() as int) =~= SUMMARY_PREFIX@);
    assert(replaced_by(items, 0, cut, summary)[0] == summary_message(summary));
}

// ---------------------------------------------------------------------------
// The machine
// ---------------------------------------------------------------------------

/// What a model call is for.
#[derive(Debug, Clone, Copy, PartialEq, Eq, Structural)]
pub enum Purpose {
    /// The run itself.
    Main,
    /// The summary of a threshold compaction.
    Threshold,
    /// The precise summary after an overflow.
    Overflow,
}

/// The tools that a model call offers.
#[derive(Debug, Clone, Copy, PartialEq, Eq, Structural)]
pub enum Menu {
    Nothing,
    /// The menu of the run.
    Full,
    /// Tools that only read.
    ReadOnly,
}

/// What the loop waits for.
#[derive(Debug)]
pub enum Phase {
    /// The summary of the items from `start` to `cut`.
    Summarizing { start: usize, cut: usize },
    /// The reply to a call of the run.
    Awaiting,
    /// The output of one of the calls of the last reply.
    Running { calls: Vec<ToolCall>, next: usize },
    /// The dump of the items that a digest replaced.
    Dumping { digest: String, previous: Option<String> },
    /// A reply of the summarizer, after `steps` earlier ones.
    Distilling { items: Vec<ConversationItem>, steps: u32 },
    /// The output of a tool that the summarizer called.
    Reading { items: Vec<ConversationItem>, steps: u32, calls: Vec<ToolCall>, next: usize },
    Done,
}

/// What a phase holds.
#[verifier::ext_equal]
pub enum PhaseView {
    Summarizing { start: int, cut: int },
    Awaiting,
    Running { calls: Seq<CallView>, next: int },
    Dumping { digest: Seq<char>, previous: Option<Seq<char>> },
    Distilling { items: Seq<ItemView>, steps: int },
    Reading { items: Seq<ItemView>, steps: int, calls: Seq<CallView>, next: int },
    Done,
}

impl View for Phase {
    type V = PhaseView;

    open spec fn view(&self) -> PhaseView {
        match self {
            Phase::Summarizing { start, cut } => PhaseView::Summarizing {
                start: *start as int,
                cut: *cut as int,
            },
            Phase::Awaiting => PhaseView::Awaiting,
            Phase::Running { calls, next } => PhaseView::Running {
                calls: conversation::call_views(calls@),
                next: *next as int,
            },
            Phase::Dumping { digest, previous } => PhaseView::Dumping {
                digest: digest@,
                previous: text::opt_view(*previous),
            },
            Phase::Distilling { items, steps } => PhaseView::Distilling {
                items: conversation::item_views(items@),
                steps: *steps as int,
            },
            Phase::Reading { items, steps, calls, next } => PhaseView::Reading {
                items: conversation::item_views(items@),
                steps: *steps as int,
                calls: conversation::call_views(calls@),
                next: *next as int,
            },
            Phase::Done => PhaseView::Done,
        }
    }
}

/// The state of a run.
#[derive(Debug)]
pub struct LoopState {
    pub items: Vec<ConversationItem>,
    pub trace: Vec<ToolCallRecord>,
    pub usage: Usage,
    /// Tools that the run has executed.
    pub executed: u32,
    /// Whether the one recovery was used.
    pub recovered: bool,
    /// Path of the dump that is to be removed at the end.
    pub dump: Option<String>,
    pub phase: Phase,
}

/// What a state holds.
#[verifier::ext_equal]
pub struct LoopView {
    pub items: Seq<ItemView>,
    pub trace: Seq<RecordView>,
    pub usage: Usage,
    pub executed: int,
    pub recovered: bool,
    pub dump: Option<Seq<char>>,
    pub phase: PhaseView,
}

impl View for LoopState {
    type V = LoopView;

    open spec fn view(&self) -> LoopView {
        LoopView {
            items: conversation::item_views(self.items@),
            trace: record_views(self.trace@),
            usage: self.usage,
            executed: self.executed as int,
            recovered: self.recovered,
            dump: text::opt_view(self.dump),
            phase: self.phase@,
        }
    }
}

/// What the driver of the loop is asked to do.
#[derive(Debug)]
pub enum Action {
    /// Call the model, and report `Event::Replied`.
    Call { purpose: Purpose, system_prompt: String, items: Vec<ConversationItem>, tools: Menu },
    /// Run a tool, and report `Event::ToolRan`.
    RunTool { purpose: Purpose, call: ToolCall },
    /// Write the text to a dump file, and report `Event::Dumped`.
    WriteDump { text: String },
    /// The run is over. Remove the dump, where there is one.
    Finish { result: Result<String, AgentError>, remove: Option<String> },
}

/// What an action holds.
#[verifier::ext_equal]
pub enum ActionView {
    Call { purpose: Purpose, system_prompt: Seq<char>, items: Seq<ItemView>, tools: Menu },
    RunTool { purpose: Purpose, call: CallView },
    WriteDump { text: Seq<char> },
    Finish { result: Result<Seq<char>, ErrorView>, remove: Option<Seq<char>> },
}

/// What the result of a run holds.
pub open spec fn result_view(result: Result<String, AgentError>) -> Result<Seq<char>, ErrorView> {
    match result {
        Ok(output) => Ok(output@),
        Err(error) => Err(error@),
    }
}

impl View for Action {
    type V = ActionView;

    open spec fn view(&self) -> ActionView {
        match self {
            Action::Call { purpose, system_prompt, items, tools } => ActionView::Call {
                purpose: *purpose,
                system_prompt: system_prompt@,
                items: conversation::item_views(items@),
                tools: *tools,
            },
            Action::RunTool { purpose, call } => ActionView::RunTool {
                purpose: *purpose,
                call: call@,
            },
            Action::WriteDump { text } => ActionView::WriteDump { text: text@ },
            Action::Finish { result, remove } => ActionView::Finish {
                result: result_view(*result),
                remove: text::opt_view(*remove),
            },
        }
    }
}

/// What happened outside.
#[derive(Debug)]
pub enum Event {
    Replied(Result<ChatReply, AgentError>),
    ToolRan(String),
    /// The dump was tried under a path relative to the workspace.
    Dumped { relative: String, written: bool },
}

/// What an event holds.
pub enum EventView {
    Replied(Result<ReplyView, ErrorView>),
    ToolRan(Seq<char>),
    Dumped { relative: Seq<char>, written: bool },
}

/// What a reply or its failure holds.
pub open spec fn reply_view(reply: Result<ChatReply, AgentError>) -> Result<ReplyView, ErrorView> {
    match reply {
        Ok(reply) => Ok(reply@),
        Err(error) => Err(error@),
    }
}

impl View for Event {
    type V = EventView;

    open spec fn view(&self) -> EventView {
        match self {
            Event::Replied(reply) => EventView::Replied(reply_view(*reply)),
            Event::ToolRan(output) => EventView::ToolRan(output@),
            Event::Dumped { relative, written } => EventView::Dumped {
                relative: relative@,
                written: *written,
            },
        }
    }
}

/// The settings of the loop, in tokens and characters.
#[derive(Debug, Clone, Copy, PartialEq, Eq, Structural)]
pub struct AgentLoop {
    /// False disables both mechanisms: an over-window request fails.
    pub enabled: bool,
    /// Tokens that start a compaction.
    pub threshold_tokens: u64,
    /// Tokens kept verbatim after a compaction.
    pub keep_tokens: u64,
    /// Tokens that a summarization request may take.
    pub summary_input_tokens: u64,
    /// Upper bound for a model-written summary.
    pub summary_max_chars: usize,
    /// Window of the model in tokens.
    pub window: u64,
}

// --- transitions -----------------------------------------------------------

/// The menu of a run.
pub open spec fn menu_of(req: RequestView) -> Seq<SpecView> {
    if req.has_tools {
        req.specs
    } else {
        Seq::empty()
    }
}

/// The range to compact before the next call, where the threshold is reached.
pub open spec fn due(cfg: AgentLoop, req: RequestView, items: Seq<ItemView>) -> Option<(int, int)> {
    if cfg.enabled && call_cost(req.system_prompt, items, menu_of(req)) >= cfg.threshold_tokens {
        compaction::planned(items, cfg.keep_tokens as int, 0)
    } else {
        None
    }
}

/// The system prompt of a summarizer.
pub open spec fn summarizer_prompt() -> Seq<char> {
    compaction::summary_rules() + text::joined(
        compaction::heading_lines(compaction::SUMMARY_SECTIONS@),
        "\n"@,
    )
}

/// The digest of a range of the conversation.
pub open spec fn digest_of(items: Seq<ItemView>, start: int, cut: int) -> Seq<char> {
    compaction::digested(
        standing_in(items),
        items.subrange(start, cut + 1),
        DIGEST_MAX_CHARS as nat,
    )
}

/// The prompt of a threshold summary.
pub open spec fn threshold_prompt(cfg: AgentLoop, items: Seq<ItemView>, start: int, cut: int) -> Seq<
    char,
> {
    compaction::summary_request(
        compaction::source_for(
            standing_in(items),
            items.subrange(start, cut + 1),
            cfg.summary_input_tokens as int,
            DIGEST_MAX_CHARS as nat,
        ).0,
        standing_in(items),
        "threshold"@,
    )
}

/// The call of the run itself. Once the tool budget is spent no tools are
/// offered, so that the last calls produce an answer.
pub open spec fn main_call(req: RequestView, s: LoopView) -> (LoopView, ActionView) {
    (
        LoopView { phase: PhaseView::Awaiting, ..s },
        ActionView::Call {
            purpose: Purpose::Main,
            system_prompt: req.system_prompt,
            items: s.items,
            tools: if req.has_tools && s.executed < req.max_tool_calls {
                Menu::Full
            } else {
                Menu::Nothing
            },
        },
    )
}

/// The beginning of a round: a compaction when it is due, else the call.
pub open spec fn round(cfg: AgentLoop, req: RequestView, s: LoopView) -> (LoopView, ActionView) {
    match due(cfg, req, s.items) {
        Some((start, cut)) => (
            LoopView { phase: PhaseView::Summarizing { start, cut }, ..s },
            ActionView::Call {
                purpose: Purpose::Threshold,
                system_prompt: summarizer_prompt(),
                items: seq![
                    ItemView::User { text: threshold_prompt(cfg, s.items, start, cut) },
                ],
                tools: Menu::Nothing,
            },
        ),
        None => main_call(req, s),
    }
}

/// The end of a run.
pub open spec fn finished(s: LoopView, result: Result<Seq<char>, ErrorView>) -> (
    LoopView,
    ActionView,
) {
    (
        LoopView { phase: PhaseView::Done, ..s },
        ActionView::Finish { result, remove: s.dump },
    )
}

/// The summary to use: what the model wrote where it is usable.
pub open spec fn usable(cfg: AgentLoop, reply: Result<ReplyView, ErrorView>) -> Option<Seq<char>> {
    match reply {
        Ok(r) => compaction::accepted(r.text, cfg.summary_max_chars as nat),
        Err(_) => None,
    }
}

/// After the reply of the threshold summarizer: its summary, or the digest where
/// there is none, replaces the prefix.
pub open spec fn after_summary(
    cfg: AgentLoop,
    req: RequestView,
    s: LoopView,
    start: int,
    cut: int,
    reply: Result<ReplyView, ErrorView>,
) -> (LoopView, ActionView) {
    let summary = match usable(cfg, reply) {
        Some(summary) => summary,
        None => digest_of(s.items, start, cut),
    };
    main_call(req, LoopView { items: replaced_by(s.items, start, cut, summary), ..s })
}

/// A sum that stays within 64 bits.
pub open spec fn saturated(a: u64, b: u64) -> u64 {
    if a + b > u64::MAX {
        u64::MAX
    } else {
        (a + b) as u64
    }
}

/// The usage of two calls.
pub open spec fn added(a: Usage, b: Usage) -> Usage {
    Usage {
        input_tokens: saturated(a.input_tokens, b.input_tokens),
        output_tokens: saturated(a.output_tokens, b.output_tokens),
        cached_input_tokens: saturated(a.cached_input_tokens, b.cached_input_tokens),
    }
}

/// The answers of tool calls in a run without tools.
pub open spec fn refusals(calls: Seq<CallView>) -> Seq<ItemView> {
    calls.map_values(|c: CallView| ItemView::ToolResult { call_id: c.id, text: NO_TOOLS@ })
}

/// After a reply to a call of the run.
pub open spec fn after_answer(cfg: AgentLoop, req: RequestView, s: LoopView, reply: ReplyView) -> (
    LoopView,
    ActionView,
) {
    let s1 = LoopView { usage: added(s.usage, reply.usage), ..s };
    if reply.tool_calls.len() == 0 {
        finished(s1, Ok(reply.text))
    } else {
        let said = s.items.push(
            ItemView::Assistant { text: reply.text, tool_calls: reply.tool_calls },
        );
        if req.has_tools {
            (
                LoopView {
                    items: said,
                    phase: PhaseView::Running { calls: reply.tool_calls, next: 0 },
                    ..s1
                },
                ActionView::RunTool { purpose: Purpose::Main, call: reply.tool_calls[0] },
            )
        } else {
            round(cfg, req, LoopView { items: said + refusals(reply.tool_calls), ..s1 })
        }
    }
}

/// After a refusal of a call of the run: the first overflow is recovered where
/// the run has tools and something to drop; anything else ends the run.
pub open spec fn after_refusal(cfg: AgentLoop, req: RequestView, s: LoopView, error: ErrorView) -> (
    LoopView,
    ActionView,
) {
    if error is ContextOverflow && cfg.enabled && !s.recovered {
        let s1 = LoopView { recovered: true, ..s };
        match compaction::planned(s.items, cfg.keep_tokens as int, 0) {
            Some((start, cut)) => if req.has_tools {
                let digest = digest_of(s.items, start, cut);
                (
                    LoopView {
                        items: replaced_by(s.items, start, cut, digest),
                        phase: PhaseView::Dumping { digest, previous: standing_in(s.items) },
                        ..s1
                    },
                    ActionView::WriteDump {
                        text: compaction::dumped(s.items.subrange(start, cut + 1)),
                    },
                )
            } else {
                finished(s1, Err(error))
            },
            None => finished(s1, Err(error)),
        }
    } else {
        finished(s, Err(error))
    }
}

/// After the output of a tool of the run.
pub open spec fn after_tool(
    cfg: AgentLoop,
    req: RequestView,
    s: LoopView,
    calls: Seq<CallView>,
    next: int,
    output: Seq<char>,
) -> (LoopView, ActionView) {
    let s1 = LoopView {
        items: s.items.push(ItemView::ToolResult { call_id: calls[next].id, text: output }),
        trace: s.trace.push(
            RecordView {
                name: calls[next].name,
                result_bytes: text::byte_len(output) as int,
            },
        ),
        executed: if s.executed < u32::MAX {
            s.executed + 1
        } else {
            s.executed
        },
        ..s
    };
    if next + 1 < calls.len() {
        (
            LoopView { phase: PhaseView::Running { calls, next: next + 1 }, ..s1 },
            ActionView::RunTool { purpose: Purpose::Main, call: calls[next + 1] },
        )
    } else {
        round(cfg, req, s1)
    }
}

/// A call of the summarizer after an overflow.
pub open spec fn distill_call(s: LoopView, items: Seq<ItemView>, steps: int) -> (
    LoopView,
    ActionView,
) {
    (
        LoopView { phase: PhaseView::Distilling { items, steps }, ..s },
        ActionView::Call {
            purpose: Purpose::Overflow,
            system_prompt: summarizer_prompt(),
            items,
            tools: Menu::ReadOnly,
        },
    )
}

/// After the dump was tried: the summarizer starts, whether or not it was written.
pub open spec fn after_dump(
    s: LoopView,
    digest: Seq<char>,
    previous: Option<Seq<char>>,
    relative: Seq<char>,
    written: bool,
) -> (LoopView, ActionView) {
    let s1 = LoopView {
        dump: if written {
            Some(relative)
        } else {
            s.dump
        },
        ..s
    };
    distill_call(
        s1,
        seq![
            ItemView::User {
                text: compaction::overflow_request(digest, relative, previous),
            },
        ],
        0,
    )
}

/// The end of the summarizer: a precise summary takes the place of the digest.
pub open spec fn settle_precise(
    cfg: AgentLoop,
    req: RequestView,
    s: LoopView,
    precise: Option<Seq<char>>,
) -> (LoopView, ActionView) {
    match precise {
        Some(summary) => if s.items.len() > 0 && s.items[0] is User {
            round(
                cfg,
                req,
                LoopView { items: s.items.update(0, summary_message(summary)), ..s },
            )
        } else {
            round(cfg, req, s)
        },
        None => round(cfg, req, s),
    }
}

/// After a reply of the summarizer.
pub open spec fn after_distilled(
    cfg: AgentLoop,
    req: RequestView,
    s: LoopView,
    items: Seq<ItemView>,
    steps: int,
    reply: Result<ReplyView, ErrorView>,
) -> (LoopView, ActionView) {
    match reply {
        Err(_) => settle_precise(cfg, req, s, None),
        Ok(r) => if r.tool_calls.len() == 0 {
            settle_precise(cfg, req, s, usable(cfg, reply))
        } else {
            let said = items.push(
                ItemView::Assistant { text: r.text, tool_calls: r.tool_calls },
            );
            (
                LoopView {
                    phase: PhaseView::Reading { items: said, steps, calls: r.tool_calls, next: 0 },
                    ..s
                },
                ActionView::RunTool { purpose: Purpose::Overflow, call: r.tool_calls[0] },
            )
        },
    }
}

/// After the output of a tool of the summarizer.
pub open spec fn after_read(
    cfg: AgentLoop,
    req: RequestView,
    s: LoopView,
    items: Seq<ItemView>,
    steps: int,
    calls: Seq<CallView>,
    next: int,
    output: Seq<char>,
) -> (LoopView, ActionView) {
    let heard = items.push(ItemView::ToolResult { call_id: calls[next].id, text: output });
    if next + 1 < calls.len() {
        (
            LoopView {
                phase: PhaseView::Reading { items: heard, steps, calls, next: next + 1 },
                ..s
            },
            ActionView::RunTool { purpose: Purpose::Overflow, call: calls[next + 1] },
        )
    } else if steps + 1 < compaction::SUMMARY_MAX_STEPS {
        distill_call(s, heard, steps + 1)
    } else {
        settle_precise(cfg, req, s, None)
    }
}

/// The first state of a run, before its first round.
pub open spec fn fresh(req: RequestView) -> LoopView {
    LoopView {
        items: seq![ItemView::User { text: req.user_prompt }],
        trace: Seq::empty(),
        usage: Usage { input_tokens: 0, output_tokens: 0, cached_input_tokens: 0 },
        executed: 0,
        recovered: false,
        dump: None,
        phase: PhaseView::Done,
    }
}

/// The next state and action.
pub open spec fn stepped(cfg: AgentLoop, req: RequestView, s: LoopView, event: EventView) -> (
    LoopView,
    ActionView,
) {
    match (s.phase, event) {
        (PhaseView::Summarizing { start, cut }, EventView::Replied(reply)) => after_summary(
            cfg,
            req,
            s,
            start,
            cut,
            reply,
        ),
        (PhaseView::Awaiting, EventView::Replied(Ok(reply))) => after_answer(cfg, req, s, reply),
        (PhaseView::Awaiting, EventView::Replied(Err(error))) => after_refusal(cfg, req, s, error),
        (PhaseView::Running { calls, next }, EventView::ToolRan(output)) => after_tool(
            cfg,
            req,
            s,
            calls,
            next,
            output,
        ),
        (
            PhaseView::Dumping { digest, previous },
            EventView::Dumped { relative, written },
        ) => after_dump(s, digest, previous, relative, written),
        (PhaseView::Distilling { items, steps }, EventView::Replied(reply)) => after_distilled(
            cfg,
            req,
            s,
            items,
            steps,
            reply,
        ),
        (
            PhaseView::Reading { items, steps, calls, next },
            EventView::ToolRan(output),
        ) => after_read(cfg, req, s, items, steps, calls, next, output),
        _ => finished(s, Err(ErrorView::Backend(Seq::empty()))),
    }
}

/// Whether an event is what the loop waits for.
pub open spec fn expected(phase: PhaseView, event: EventView) -> bool {
    match phase {
        PhaseView::Summarizing { .. } => event is Replied,
        PhaseView::Awaiting => event is Replied,
        PhaseView::Running { .. } => event is ToolRan,
        PhaseView::Dumping { .. } => event is Dumped,
        PhaseView::Distilling { .. } => event is Replied,
        PhaseView::Reading { .. } => event is ToolRan,
        PhaseView::Done => false,
    }
}

/// States that a run goes through: the conversation begins with a user message,
/// and what is waited for exists.
pub open spec fn sound(s: LoopView) -> bool {
    &&& s.items.len() > 0
    &&& s.items[0] is User
    &&& match s.phase {
        PhaseView::Summarizing { start, cut } => 0 <= start <= cut && cut + 1 < s.items.len(),
        PhaseView::Running { calls, next } => 0 <= next < calls.len(),
        PhaseView::Distilling { steps, .. } => 0 <= steps < compaction::SUMMARY_MAX_STEPS,
        PhaseView::Reading { steps, calls, next, .. } => 0 <= steps < compaction::SUMMARY_MAX_STEPS
            && 0 <= next < calls.len(),
        _ => true,
    }
}

// --- execution -------------------------------------------------------------

/// A sum that stays within 64 bits.
fn sum_of(a: u64, b: u64) -> (r: u64)
    ensures
        r == saturated(a, b),
{
    if a > u64::MAX - b {
        u64::MAX
    } else {
        a + b
    }
}

/// What an optional string slice of an optional string is.
fn borrowed(s: &Option<String>) -> (r: Option<&str>)
    ensures
        text::opt_str_view(r) == text::opt_view(*s),
{
    match s {
        Some(s) => Some(s.as_str()),
        None => None,
    }
}

/// Copies of a whole conversation.
fn copy_all(items: &[ConversationItem]) -> (r: Vec<ConversationItem>)
    ensures
        conversation::item_views(r@) == conversation::item_views(items@),
{
    let n: usize = items.len();
    let r = conversation::copy_items(items, 0, n);
    assert(conversation::item_views(items@).subrange(0, n as int) =~= conversation::item_views(
        items@,
    ));
    r
}

/// The end of a run.
fn finish(state: LoopState, result: Result<String, AgentError>) -> (r: (LoopState, Action))
    ensures
        (r.0@, r.1@) == finished(state@, result_view(result)),
{
    let mut state = state;
    let remove: Option<String> = match &state.dump {
        Some(path) => Some(path.clone()),
        None => None,
    };
    state.phase = Phase::Done;
    (state, Action::Finish { result, remove })
}

/// The call of the run itself.
fn call_main(req: &RunRequest, state: LoopState) -> (r: (LoopState, Action))
    ensures
        (r.0@, r.1@) == main_call(req@, state@),
{
    let mut state = state;
    let tools = if req.has_tools && state.executed < req.max_tool_calls {
        Menu::Full
    } else {
        Menu::Nothing
    };
    let items = copy_all(&state.items);
    state.phase = Phase::Awaiting;
    let action = Action::Call {
        purpose: Purpose::Main,
        system_prompt: req.system_prompt.clone(),
        items,
        tools,
    };
    (state, action)
}

/// A call of the summarizer after an overflow.
fn call_distiller(state: LoopState, items: Vec<ConversationItem>, steps: u32) -> (r: (
    LoopState,
    Action,
))
    ensures
        (r.0@, r.1@) == distill_call(state@, conversation::item_views(items@), steps as int),
{
    let mut state = state;
    let sent = copy_all(&items);
    state.phase = Phase::Distilling { items, steps };
    let action = Action::Call {
        purpose: Purpose::Overflow,
        system_prompt: compaction::summary_system_prompt(),
        items: sent,
        tools: Menu::ReadOnly,
    };
    (state, action)
}

/// The digest of a range of the conversation.
fn digest_range(items: &[ConversationItem], start: usize, cut: usize) -> (r: String)
    requires
        start <= cut,
        cut + 1 < items@.len(),
    ensures
        r@ == digest_of(conversation::item_views(items@), start as int, cut as int),
{
    let previous = previous_summary(items);
    let n: usize = items.len();
    assert(cut + 1 < n);
    let dropped = conversation::copy_items(items, start, cut + 1);
    compaction::digest(borrowed(&previous), &dropped, DIGEST_MAX_CHARS)
}

/// One item more in a conversation.
fn heard(items: Vec<ConversationItem>, item: ConversationItem) -> (r: Vec<ConversationItem>)
    ensures
        conversation::item_views(r@) == conversation::item_views(items@).push(item@),
{
    let mut items = items;
    proof {
        conversation::lemma_items_push(items@, item);
    }
    items.push(item);
    items
}

impl AgentLoop {
    /// The loop for a model window, with its settings.
    pub fn new(
        enabled: bool,
        threshold_tokens: u64,
        keep_tokens: u64,
        summary_input_tokens: u64,
        summary_max_chars: usize,
        window: u64,
    ) -> (r: Self)
        ensures
            r == (AgentLoop {
                enabled,
                threshold_tokens,
                keep_tokens,
                summary_input_tokens,
                summary_max_chars,
                window,
            }),
    {
        AgentLoop {
            enabled,
            threshold_tokens,
            keep_tokens,
            summary_input_tokens,
            summary_max_chars,
            window,
        }
    }

    /// The window of the model in tokens.
    pub fn window(&self) -> (r: u64)
        ensures
            r == self.window,
    {
        self.window
    }

    /// The range to compact before the next call, where the threshold is reached.
    pub fn compaction_due(&self, req: &RunRequest, items: &[ConversationItem]) -> (r: Option<
        Plan,
    >)
        ensures
            match r {
                Some(p) => due(*self, req@, conversation::item_views(items@)) == Some(
                    (p.start as int, p.cut as int),
                ) && p.start <= p.cut && p.cut + 1 < items@.len(),
                None => due(*self, req@, conversation::item_views(items@)) is None,
            },
    {
        if !self.enabled {
            return None;
        }
        let tokens: Option<u64> = if req.has_tools {
            call_tokens(req.system_prompt.as_str(), items, &req.specs)
        } else {
            let none: Vec<ToolSpec> = Vec::new();
            assert(spec_views(none@) =~= Seq::empty());
            call_tokens(req.system_prompt.as_str(), items, &none)
        };
        let reached: bool = match tokens {
            Some(n) => n >= self.threshold_tokens,
            None => true,
        };
        if !reached {
            return None;
        }
        compaction::plan(items, self.keep_tokens, 0)
    }

    /// The prompt of a threshold summary.
    fn ask_for_summary(&self, items: &[ConversationItem], start: usize, cut: usize) -> (r: String)
        requires
            start <= cut,
            cut + 1 < items@.len(),
        ensures
            r@ == threshold_prompt(
                *self,
                conversation::item_views(items@),
                start as int,
                cut as int,
            ),
    {
        let previous = previous_summary(items);
        let n: usize = items.len();
        assert(cut + 1 < n);
        let dropped = conversation::copy_items(items, start, cut + 1);
        let (source, _kind) = compaction::summarization_source(
            borrowed(&previous),
            &dropped,
            self.summary_input_tokens,
            DIGEST_MAX_CHARS,
        );
        compaction::summary_user_prompt(source.as_str(), borrowed(&previous), "threshold")
    }

    /// The beginning of a round.
    fn begin_round(&self, req: &RunRequest, state: LoopState) -> (r: (LoopState, Action))
        ensures
            (r.0@, r.1@) == round(*self, req@, state@),
    {
        match self.compaction_due(req, &state.items) {
            Some(plan) => {
                let mut state = state;
                let prompt = self.ask_for_summary(&state.items, plan.start, plan.cut);
                let mut items: Vec<ConversationItem> = Vec::new();
                items.push(ConversationItem::User { text: prompt });
                state.phase = Phase::Summarizing { start: plan.start, cut: plan.cut };
                let action = Action::Call {
                    purpose: Purpose::Threshold,
                    system_prompt: compaction::summary_system_prompt(),
                    items,
                    tools: Menu::Nothing,
                };
                proof {
                    assert(conversation::item_views(items@) =~= seq![
                        ItemView::User { text: prompt@ },
                    ]);
                }
                (state, action)
            },
            None => call_main(req, state),
        }
    }

    /// The summary to use, where the model wrote a usable one.
    fn usable_summary(&self, reply: &Result<ChatReply, AgentError>) -> (r: Option<String>)
        ensures
            text::opt_view(r) == usable(*self, reply_view(*reply)),
    {
        match reply {
            Ok(reply) => compaction::validate_summary(
                reply.text.as_str(),
                self.summary_max_chars,
            ),
            Err(_) => None,
        }
    }

    fn on_summary(
        &self,
        req: &RunRequest,
        state: LoopState,
        start: usize,
        cut: usize,
        reply: Result<ChatReply, AgentError>,
    ) -> (r: (LoopState, Action))
        requires
            start <= cut,
            cut + 1 < state@.items.len(),
        ensures
            (r.0@, r.1@) == after_summary(
                *self,
                req@,
                state@,
                start as int,
                cut as int,
                reply_view(reply),
            ),
    {
        let summary: String = match self.usable_summary(&reply) {
            Some(summary) => summary,
            None => digest_range(&state.items, start, cut),
        };
        let LoopState { items, trace, usage, executed, recovered, dump, phase } = state;
        let items = apply_plan(items, Plan { start, cut }, summary.as_str());
        call_main(req, LoopState { items, trace, usage, executed, recovered, dump, phase })
    }

    fn on_answer(&self, req: &RunRequest, state: LoopState, reply: ChatReply) -> (r: (
        LoopState,
        Action,
    ))
        ensures
            (r.0@, r.1@) == after_answer(*self, req@, state@, reply@),
    {
        let mut state = state;
        state.usage = Usage {
            input_tokens: sum_of(state.usage.input_tokens, reply.usage.input_tokens),
            output_tokens: sum_of(state.usage.output_tokens, reply.usage.output_tokens),
            cached_input_tokens: sum_of(
                state.usage.cached_input_tokens,
                reply.usage.cached_input_tokens,
            ),
        };
        if reply.tool_calls.len() == 0 {
            return finish(state, Ok(reply.text));
        }
        let calls = reply.tool_calls;
        let said = ConversationItem::Assistant {
            text: reply.text,
            tool_calls: conversation::copy_calls(&calls),
        };
        let LoopState { items, trace, usage, executed, recovered, dump, phase } = state;
        let mut items = heard(items, said);
        if req.has_tools {
            let call = calls[0].duplicate();
            let phase = Phase::Running { calls, next: 0 };
            return (
                LoopState { items, trace, usage, executed, recovered, dump, phase },
                Action::RunTool { purpose: Purpose::Main, call },
            );
        }
        let ghost start = conversation::item_views(items@);
        let ghost all = refusals(conversation::call_views(calls@));
        let mut i: usize = 0;
        assert(start + all.take(0) =~= start);
        while i < calls.len()
            invariant
                i <= calls@.len(),
                all == refusals(conversation::call_views(calls@)),
                conversation::item_views(items@) == start + all.take(i as int),
            decreases calls@.len() - i,
        {
            let item = ConversationItem::ToolResult {
                call_id: calls[i].id.clone(),
                text: NO_TOOLS.to_owned(),
            };
            proof {
                assert(item@ == all[i as int]);
                assert(start + all.take(i + 1) =~= (start + all.take(i as int)).push(
                    all[i as int],
                ));
            }
            items = heard(items, item);
            i = i + 1;
        }
        assert(all.take(i as int) =~= all);
        self.begin_round(req, LoopState { items, trace, usage, executed, recovered, dump, phase })
    }

    fn on_refusal(&self, req: &RunRequest, state: LoopState, error: AgentError) -> (r: (
        LoopState,
        Action,
    ))
        ensures
            (r.0@, r.1@) == after_refusal(*self, req@, state@, error@),
    {
        let overflow: bool = match &error {
            AgentError::ContextOverflow(_) => true,
            AgentError::Backend(_) => false,
        };
        if !(overflow && self.enabled && !state.recovered) {
            return finish(state, Err(error));
        }
        let mut state = state;
        state.recovered = true;
        let plan = match compaction::plan(&state.items, self.keep_tokens, 0) {
            Some(plan) => plan,
            None => {
                return finish(state, Err(error));
            },
        };
        if !req.has_tools {
            return finish(state, Err(error));
        }
        let previous = previous_summary(&state.items);
        let dropped = conversation::copy_items(&state.items, plan.start, plan.cut + 1);
        // The digest first: from here on the request is smaller, whatever the
        // summarizer does.
        let digest = digest_range(&state.items, plan.start, plan.cut);
        let body = compaction::dump_text(&dropped);
        let LoopState { items, trace, usage, executed, recovered, dump, phase: _ } = state;
        let items = apply_plan(items, plan, digest.as_str());
        let phase = Phase::Dumping { digest, previous };
        (
            LoopState { items, trace, usage, executed, recovered, dump, phase },
            Action::WriteDump { text: body },
        )
    }

    fn on_tool(
        &self,
        req: &RunRequest,
        state: LoopState,
        calls: Vec<ToolCall>,
        next: usize,
        output: String,
    ) -> (r: (LoopState, Action))
        requires
            next < calls@.len(),
        ensures
            (r.0@, r.1@) == after_tool(
                *self,
                req@,
                state@,
                conversation::call_views(calls@),
                next as int,
                output@,
            ),
    {
        let chars = text::chars_of(output.as_str());
        let record = ToolCallRecord {
            name: calls[next].name.clone(),
            result_bytes: text::bytes_in(&chars),
        };
        let item = ConversationItem::ToolResult { call_id: calls[next].id.clone(), text: output };
        let LoopState { items, mut trace, usage, executed, recovered, dump, phase } = state;
        let ghost views = conversation::call_views(calls@);
        proof {
            assert(views[next as int] == calls@[next as int]@);
            assert(record_views(trace@.push(record)) =~= record_views(trace@).push(record@));
        }
        trace.push(record);
        let items = heard(items, item);
        let executed: u32 = if executed < u32::MAX {
            executed + 1
        } else {
            executed
        };
        if next < calls.len() - 1 {
            assert(views[next + 1] == calls@[next + 1]@);
            let call = calls[next + 1].duplicate();
            let phase = Phase::Running { calls, next: next + 1 };
            return (
                LoopState { items, trace, usage, executed, recovered, dump, phase },
                Action::RunTool { purpose: Purpose::Main, call },
            );
        }
        self.begin_round(req, LoopState { items, trace, usage, executed, recovered, dump, phase })
    }

    fn on_dump(
        &self,
        state: LoopState,
        digest: String,
        previous: Option<String>,
        relative: String,
        written: bool,
    ) -> (r: (LoopState, Action))
        ensures
            (r.0@, r.1@) == after_dump(
                state@,
                digest@,
                text::opt_view(previous),
                relative@,
                written,
            ),
    {
        let prompt = compaction::overflow_user_prompt(
            digest.as_str(),
            relative.as_str(),
            borrowed(&previous),
        );
        let mut state = state;
        if written {
            state.dump = Some(relative);
        }
        let mut items: Vec<ConversationItem> = Vec::new();
        items.push(ConversationItem::User { text: prompt });
        assert(conversation::item_views(items@) =~= seq![ItemView::User { text: prompt@ }]);
        call_distiller(state, items, 0)
    }

    fn settle(&self, req: &RunRequest, state: LoopState, precise: Option<String>) -> (r: (
        LoopState,
        Action,
    ))
        ensures
            (r.0@, r.1@) == settle_precise(*self, req@, state@, text::opt_view(precise)),
    {
        let mut state = state;
        if let Some(summary) = precise {
            let ghost before = conversation::item_views(state.items@);
            let first_is_user: bool = if state.items.len() > 0 {
                assert(before[0] == state.items@[0]@);
                match &state.items[0] {
                    ConversationItem::User { .. } => true,
                    _ => false,
                }
            } else {
                false
            };
            if first_is_user {
                let LoopState { mut items, trace, usage, executed, recovered, dump, phase } = state;
                items.set(0, summary_item(summary.as_str()));
                assert(conversation::item_views(items@) =~= before.update(
                    0,
                    summary_message(summary@),
                ));
                state = LoopState { items, trace, usage, executed, recovered, dump, phase };
            }
        }
        self.begin_round(req, state)
    }

    fn on_distilled(
        &self,
        req: &RunRequest,
        state: LoopState,
        items: Vec<ConversationItem>,
        steps: u32,
        reply: Result<ChatReply, AgentError>,
    ) -> (r: (LoopState, Action))
        ensures
            (r.0@, r.1@) == after_distilled(
                *self,
                req@,
                state@,
                conversation::item_views(items@),
                steps as int,
                reply_view(reply),
            ),
    {
        let usable = self.usable_summary(&reply);
        match reply {
            Err(_) => self.settle(req, state, None),
            Ok(reply) => {
                if reply.tool_calls.len() == 0 {
                    return self.settle(req, state, usable);
                }
                let calls = reply.tool_calls;
                let said = ConversationItem::Assistant {
                    text: reply.text,
                    tool_calls: conversation::copy_calls(&calls),
                };
                let items = heard(items, said);
                let call = calls[0].duplicate();
                let mut state = state;
                state.phase = Phase::Reading { items, steps, calls, next: 0 };
                (state, Action::RunTool { purpose: Purpose::Overflow, call })
            },
        }
    }

    fn on_read(
        &self,
        req: &RunRequest,
        state: LoopState,
        items: Vec<ConversationItem>,
        steps: u32,
        calls: Vec<ToolCall>,
        next: usize,
        output: String,
    ) -> (r: (LoopState, Action))
        requires
            next < calls@.len(),
            steps < compaction::SUMMARY_MAX_STEPS,
        ensures
            (r.0@, r.1@) == after_read(
                *self,
                req@,
                state@,
                conversation::item_views(items@),
                steps as int,
                conversation::call_views(calls@),
                next as int,
                output@,
            ),
    {
        let item = ConversationItem::ToolResult { call_id: calls[next].id.clone(), text: output };
        let ghost views = conversation::call_views(calls@);
        assert(views[next as int] == calls@[next as int]@);
        let items = heard(items, item);
        if next < calls.len() - 1 {
            assert(views[next + 1] == calls@[next + 1]@);
            let call = calls[next + 1].duplicate();
            let mut state = state;
            state.phase = Phase::Reading { items, steps, calls, next: next + 1 };
            return (state, Action::RunTool { purpose: Purpose::Overflow, call });
        }
        if steps + 1 < compaction::SUMMARY_MAX_STEPS {
            call_distiller(state, items, steps + 1)
        } else {
            self.settle(req, state, None)
        }
    }

    /// Start a run: its first state and the first thing to do.
    pub fn begin(&self, req: &RunRequest) -> (r: (LoopState, Action))
        ensures
            (r.0@, r.1@) == round(*self, req@, fresh(req@)),
            sound(r.0@),
    {
        let mut items: Vec<ConversationItem> = Vec::new();
        items.push(ConversationItem::User { text: req.user_prompt.clone() });
        let state = LoopState {
            items,
            trace: Vec::new(),
            usage: Usage { input_tokens: 0, output_tokens: 0, cached_input_tokens: 0 },
            executed: 0,
            recovered: false,
            dump: None,
            phase: Phase::Done,
        };
        proof {
            assert(conversation::item_views(items@) =~= fresh(req@).items);
            assert(record_views(state.trace@) =~= Seq::empty());
            assert(state@ == fresh(req@));
            lemma_round_is_sound(*self, req@, state@);
        }
        self.begin_round(req, state)
    }

    /// Take in what happened, and decide what is next.
    pub fn step(&self, req: &RunRequest, state: LoopState, event: Event) -> (r: (LoopState, Action))
        requires
            sound(state@),
            expected(state@.phase, event@),
        ensures
            (r.0@, r.1@) == stepped(*self, req@, state@, event@),
            sound(r.0@),
    {
        proof {
            lemma_step_is_sound(*self, req@, state@, event@);
        }
        let LoopState { items, trace, usage, executed, recovered, dump, phase } = state;
        let ghost before = state@;
        match phase {
            Phase::Summarizing { start, cut } => {
                let state = LoopState {
                    items,
                    trace,
                    usage,
                    executed,
                    recovered,
                    dump,
                    phase: Phase::Summarizing { start, cut },
                };
                assert(state@ == before);
                match event {
                    Event::Replied(reply) => self.on_summary(req, state, start, cut, reply),
                    _ => finish(state, Err(AgentError::Backend(String::new()))),
                }
            },
            Phase::Awaiting => {
                let state = LoopState {
                    items,
                    trace,
                    usage,
                    executed,
                    recovered,
                    dump,
                    phase: Phase::Awaiting,
                };
                assert(state@ == before);
                match event {
                    Event::Replied(Ok(reply)) => self.on_answer(req, state, reply),
                    Event::Replied(Err(error)) => self.on_refusal(req, state, error),
                    _ => finish(state, Err(AgentError::Backend(String::new()))),
                }
            },
            Phase::Running { calls, next } => {
                let state = LoopState {
                    items,
                    trace,
                    usage,
                    executed,
                    recovered,
                    dump,
                    phase: Phase::Done,
                };
                match event {
                    Event::ToolRan(output) => self.on_tool(req, state, calls, next, output),
                    _ => finish(state, Err(AgentError::Backend(String::new()))),
                }
            },
            Phase::Dumping { digest, previous } => {
                let state = LoopState {
                    items,
                    trace,
                    usage,
                    executed,
                    recovered,
                    dump,
                    phase: Phase::Done,
                };
                match event {
                    Event::Dumped { relative, written } => self.on_dump(
                        state,
                        digest,
                        previous,
                        relative,
                        written,
                    ),
                    _ => finish(state, Err(AgentError::Backend(String::new()))),
                }
            },
            Phase::Distilling { items: read, steps } => {
                let state = LoopState {
                    items,
                    trace,
                    usage,
                    executed,
                    recovered,
                    dump,
                    phase: Phase::Done,
                };
                match event {
                    Event::Replied(reply) => self.on_distilled(req, state, read, steps, reply),
                    _ => finish(state, Err(AgentError::Backend(String::new()))),
                }
            },
            Phase::Reading { items: read, steps, calls, next } => {
                let state = LoopState {
                    items,
                    trace,
                    usage,
                    executed,
                    recovered,
                    dump,
                    phase: Phase::Done,
                };
                match event {
                    Event::ToolRan(output) => self.on_read(
                        req,
                        state,
                        read,
                        steps,
                        calls,
                        next,
                        output,
                    ),
                    _ => finish(state, Err(AgentError::Backend(String::new()))),
                }
            },
            Phase::Done => finish(
                LoopState {
                    items,
                    trace,
                    usage,
                    executed,
                    recovered,
                    dump,
                    phase: Phase::Done,
                },
                Err(AgentError::Backend(String::new())),
            ),
        }
    }
}

/// A round leads to a sound state.
proof fn lemma_round_is_sound(cfg: AgentLoop, req: RequestView, s: LoopView)
    requires
        s.items.len() > 0,
        s.items[0] is User,
    ensures
        sound(round(cfg, req, s).0),
{
    if let Some((start, cut)) = due(cfg, req, s.items) {
        compaction::law_plan_spares_newest_and_pinned(s.items, cfg.keep_tokens as int, 0);
    }
}

/// A step leads from a sound state to a sound state.
proof fn lemma_step_is_sound(cfg: AgentLoop, req: RequestView, s: LoopView, event: EventView)
    requires
        sound(s),
        expected(s.phase, event),
    ensures
        sound(stepped(cfg, req, s, event).0),
{
    match (s.phase, event) {
        (PhaseView::Summarizing { start, cut }, EventView::Replied(reply)) => {},
        (PhaseView::Awaiting, EventView::Replied(Ok(reply))) => {
            let said = s.items.push(
                ItemView::Assistant { text: reply.text, tool_calls: reply.tool_calls },
            );
            let s1 = LoopView {
                usage: added(s.usage, reply.usage),
                items: said + refusals(reply.tool_calls),
                ..s
            };
            lemma_round_is_sound(cfg, req, s1);
        },
        (PhaseView::Awaiting, EventView::Replied(Err(error))) => {},
        (PhaseView::Running { calls, next }, EventView::ToolRan(output)) => {
            let s1 = LoopView {
                items: s.items.push(ItemView::ToolResult { call_id: calls[next].id, text: output }),
                trace: s.trace.push(
                    RecordView {
                        name: calls[next].name,
                        result_bytes: text::byte_len(output) as int,
                    },
                ),
                executed: if s.executed < u32::MAX {
                    s.executed + 1
                } else {
                    s.executed
                },
                ..s
            };
            lemma_round_is_sound(cfg, req, s1);
        },
        (PhaseView::Dumping { digest, previous }, EventView::Dumped { relative, written }) => {},
        (PhaseView::Distilling { items, steps }, EventView::Replied(reply)) => {
            lemma_round_is_sound(cfg, req, s);
            if let Some(summary) = usable(cfg, reply) {
                lemma_round_is_sound(
                    cfg,
                    req,
                    LoopView { items: s.items.update(0, summary_message(summary)), ..s },
                );
            }
        },
        (PhaseView::Reading { items, steps, calls, next }, EventView::ToolRan(output)) => {
            lemma_round_is_sound(cfg, req, s);
        },
        _ => {},
    }
}

// ---------------------------------------------------------------------------
// Laws of the loop
// ---------------------------------------------------------------------------

/// A request that is refused for its size is recovered at most once: a dump is
/// asked for only before the recovery was used, and asking for it uses it up.
pub proof fn law_one_recovery(cfg: AgentLoop, req: RequestView, s: LoopView, event: EventView)
    requires
        sound(s),
        expected(s.phase, event),
    ensures
        s.recovered ==> stepped(cfg, req, s, event).0.recovered,
        stepped(cfg, req, s, event).1 is WriteDump ==> !s.recovered && stepped(
            cfg,
            req,
            s,
            event,
        ).0.recovered,
{
}

/// A second overflow is not retried: it ends the run with its own message.
pub proof fn law_second_overflow_ends_the_run(
    cfg: AgentLoop,
    req: RequestView,
    s: LoopView,
    message: Seq<char>,
)
    requires
        s.phase is Awaiting,
        s.recovered,
    ensures
        stepped(
            cfg,
            req,
            s,
            EventView::Replied(Err(ErrorView::ContextOverflow(message))),
        ).1 == (ActionView::Finish {
            result: Err(ErrorView::ContextOverflow(message)),
            remove: s.dump,
        }),
{
}

/// Any other failure of a call of the run ends it with that failure.
pub proof fn law_failures_end_the_run(
    cfg: AgentLoop,
    req: RequestView,
    s: LoopView,
    message: Seq<char>,
)
    requires
        s.phase is Awaiting,
    ensures
        stepped(cfg, req, s, EventView::Replied(Err(ErrorView::Backend(message)))).1 == (
        ActionView::Finish { result: Err(ErrorView::Backend(message)), remove: s.dump }),
{
}

/// Every call of the run carries the system prompt of the request and the whole
/// conversation, and offers tools only while the tool budget lasts.
pub proof fn law_calls_of_the_run(cfg: AgentLoop, req: RequestView, s: LoopView, event: EventView)
    requires
        sound(s),
        expected(s.phase, event),
    ensures
        stepped(cfg, req, s, event).1 matches ActionView::Call {
            purpose,
            system_prompt,
            items,
            tools,
        } ==> purpose == Purpose::Main ==> system_prompt == req.system_prompt && items == stepped(
            cfg,
            req,
            s,
            event,
        ).0.items && tools == (if req.has_tools && stepped(cfg, req, s, event).0.executed
            < req.max_tool_calls {
            Menu::Full
        } else {
            Menu::Nothing
        }),
{
}

/// The state of a run after a number of events, and what it asks for.
pub open spec fn reached(cfg: AgentLoop, req: RequestView, events: Seq<EventView>) -> (
    LoopView,
    ActionView,
)
    decreases events.len(),
{
    if events.len() == 0 {
        round(cfg, req, fresh(req))
    } else {
        stepped(cfg, req, reached(cfg, req, events.drop_last()).0, events.last())
    }
}

/// Whether every event was what the run waited for.
pub open spec fn history(cfg: AgentLoop, req: RequestView, events: Seq<EventView>) -> bool
    decreases events.len(),
{
    events.len() == 0 || (history(cfg, req, events.drop_last()) && expected(
        reached(cfg, req, events.drop_last()).0.phase,
        events.last(),
    ))
}

/// The tool calls in the replies to the calls of the run so far.
pub open spec fn asked(cfg: AgentLoop, req: RequestView, events: Seq<EventView>) -> nat
    decreases events.len(),
{
    if events.len() == 0 {
        0
    } else {
        let before = asked(cfg, req, events.drop_last());
        match (reached(cfg, req, events.drop_last()).0.phase, events.last()) {
            (PhaseView::Awaiting, EventView::Replied(Ok(reply))) => before + reply.tool_calls.len(),
            _ => before,
        }
    }
}

/// The tool calls of the last reply that still wait for their output.
pub open spec fn waiting(phase: PhaseView) -> int {
    match phase {
        PhaseView::Running { calls, next } => calls.len() - next,
        _ => 0,
    }
}

/// A count as the state holds it.
pub open spec fn counted(n: int) -> int {
    if n <= u32::MAX {
        n
    } else {
        u32::MAX as int
    }
}

/// The counter of a run with tools is the number of tool calls that the model asked
/// for in the replies of the run and that were run, whatever happened in between:
/// a reply with some calls raises it by their number once they ran, and nothing
/// else raises it.
pub proof fn law_executed_counts_the_calls_of_the_run(
    cfg: AgentLoop,
    req: RequestView,
    events: Seq<EventView>,
)
    requires
        req.has_tools,
        history(cfg, req, events),
    ensures
        sound(reached(cfg, req, events).0),
        0 <= waiting(reached(cfg, req, events).0.phase) <= asked(cfg, req, events),
        reached(cfg, req, events).0.executed == counted(
            asked(cfg, req, events) - waiting(reached(cfg, req, events).0.phase),
        ),
    decreases events.len(),
{
    if events.len() == 0 {
        lemma_round_is_sound(cfg, req, fresh(req));
    } else {
        let front = events.drop_last();
        law_executed_counts_the_calls_of_the_run(cfg, req, front);
        lemma_step_is_sound(cfg, req, reached(cfg, req, front).0, events.last());
    }
}

/// The tool budget holds over the whole run: as long as the replies of the run held
/// fewer tool calls than the budget, its next call offers the menu, and from then on
/// none. Every call of the run carries the system prompt of the request.
pub proof fn law_the_tool_budget_is_kept(
    cfg: AgentLoop,
    req: RequestView,
    events: Seq<EventView>,
)
    requires
        req.has_tools,
        0 <= req.max_tool_calls <= u32::MAX,
        history(cfg, req, events),
    ensures
        reached(cfg, req, events).1 matches ActionView::Call {
            purpose,
            system_prompt,
            items,
            tools,
        } ==> purpose == Purpose::Main ==> system_prompt == req.system_prompt && tools == (
        if asked(cfg, req, events) < req.max_tool_calls {
            Menu::Full
        } else {
            Menu::Nothing
        }),
{
    law_executed_counts_the_calls_of_the_run(cfg, req, events);
}

/// Summarizers never get more than tools that read.
pub proof fn law_summarizers_only_read(
    cfg: AgentLoop,
    req: RequestView,
    s: LoopView,
    event: EventView,
)
    requires
        sound(s),
        expected(s.phase, event),
    ensures
        stepped(cfg, req, s, event).1 matches ActionView::Call {
            purpose,
            system_prompt,
            items,
            tools,
        } ==> purpose != Purpose::Main ==> tools != Menu::Full && system_prompt
            == summarizer_prompt(),
{
}

/// The summarizer after an overflow makes a bounded number of calls.
pub proof fn law_summarizer_is_bounded(
    cfg: AgentLoop,
    req: RequestView,
    s: LoopView,
    event: EventView,
)
    requires
        sound(s),
        expected(s.phase, event),
    ensures
        stepped(cfg, req, s, event).0.phase matches PhaseView::Distilling { steps, .. } ==> 0
            <= steps < compaction::SUMMARY_MAX_STEPS && (s.phase matches PhaseView::Reading {
            steps: earlier,
            ..
        } ==> steps == earlier + 1) && (s.phase is Dumping ==> steps == 0),
{
    lemma_step_is_sound(cfg, req, s, event);
}

/// The dump does not outlive the run: what the run has written is what its end
/// asks to remove, and nothing is written but what was reported as written.
pub proof fn law_dump_is_removed(cfg: AgentLoop, req: RequestView, s: LoopView, event: EventView)
    requires
        sound(s),
        expected(s.phase, event),
    ensures
        stepped(cfg, req, s, event).1 matches ActionView::Finish { remove, .. } ==> remove
            == s.dump,
        stepped(cfg, req, s, event).0.dump == (match event {
            EventView::Dumped { relative, written } => if written {
                Some(relative)
            } else {
                s.dump
            },
            _ => s.dump,
        }),
{
}

/// With compaction disabled nothing is ever summarized or dropped.
pub proof fn law_disabled_means_untouched(
    cfg: AgentLoop,
    req: RequestView,
    s: LoopView,
    event: EventView,
)
    requires
        sound(s),
        expected(s.phase, event),
        !cfg.enabled,
        s.phase is Awaiting || s.phase is Running,
    ensures
        s.items.is_prefix_of(stepped(cfg, req, s, event).0.items),
        !(stepped(cfg, req, s, event).1 is WriteDump),
        stepped(cfg, req, s, event).1 matches ActionView::Call { purpose, .. } ==> purpose
            == Purpose::Main,
{
    let t = stepped(cfg, req, s, event).0;
    assert(s.items =~= t.items.subrange(0, s.items.len() as int));
}

/// Below the threshold nothing is compacted: the next action is the call itself.
pub proof fn law_below_the_threshold_nothing_is_compacted(
    cfg: AgentLoop,
    req: RequestView,
    s: LoopView,
)
    requires
        call_cost(req.system_prompt, s.items, menu_of(req)) < cfg.threshold_tokens,
    ensures
        round(cfg, req, s) == main_call(req, s),
{
}

/// A run without tools runs none: every call it is asked for is answered with a
/// refusal, in order.
pub proof fn law_no_tools_without_tools(
    cfg: AgentLoop,
    req: RequestView,
    s: LoopView,
    reply: ReplyView,
)
    requires
        sound(s),
        s.phase is Awaiting,
        !req.has_tools,
        reply.tool_calls.len() > 0,
    ensures
        !(stepped(cfg, req, s, EventView::Replied(Ok(reply))).1 is RunTool),
        stepped(cfg, req, s, EventView::Replied(Ok(reply))).0.items == s.items.push(
            ItemView::Assistant { text: reply.text, tool_calls: reply.tool_calls },
        ) + refusals(reply.tool_calls),
{
}

/// After a recovery that wrote a precise summary, the conversation that is sent
/// again begins with that summary.
pub proof fn law_precise_summary_replaces_the_digest(
    cfg: AgentLoop,
    req: RequestView,
    s: LoopView,
    reply: ReplyView,
    summary: Seq<char>,
)
    requires
        sound(s),
        s.phase is Distilling,
        reply.tool_calls.len() == 0,
        compaction::accepted(reply.text, cfg.summary_max_chars as nat) == Some(summary),
    ensures
        stepped(cfg, req, s, EventView::Replied(Ok(reply))).0.items == s.items.update(
            0,
            summary_message(summary),
        ),
{
}

/// A summarizer that fails, or answers off contract, leaves the deterministic
/// digest in the place of the dropped turns.
pub proof fn law_failed_summarizer_leaves_the_digest(
    cfg: AgentLoop,
    req: RequestView,
    s: LoopView,
    start: int,
    cut: int,
    reply: Result<ReplyView, ErrorView>,
)
    requires
        sound(s),
        s.phase == (PhaseView::Summarizing { start, cut }),
        usable(cfg, reply) is None,
    ensures
        stepped(cfg, req, s, EventView::Replied(reply)).0.items == replaced_by(
            s.items,
            start,
            cut,
            digest_of(s.items, start, cut),
        ),
{
}

/// The output of a tool is fed back to the model, as the answer to its call.
pub proof fn law_tool_output_is_fed_back(
    cfg: AgentLoop,
    req: RequestView,
    s: LoopView,
    calls: Seq<CallView>,
    next: int,
    output: Seq<char>,
)
    requires
        sound(s),
        s.phase == (PhaseView::Running { calls, next }),
    ensures
        stepped(cfg, req, s, EventView::ToolRan(output)).0.items == s.items.push(
            ItemView::ToolResult { call_id: calls[next].id, text: output },
        ),
        stepped(cfg, req, s, EventView::ToolRan(output)).0.trace.len() == s.trace.len() + 1,
{
}

} // verus!
