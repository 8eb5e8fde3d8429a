use hoverstare::agent_loop::{
    apply_plan, call_tokens, previous_summary, Action, AgentError, AgentLoop, ChatReply, Event,
    LoopState, Menu, Purpose, RunRequest, ToolSpec, SUMMARY_PREFIX,
};
use hoverstare::compaction::Plan;
use hoverstare::conversation::{ConversationItem, ToolCall, Usage};

type Script = Box<dyn Fn(&[ConversationItem]) -> Result<ChatReply, AgentError>>;

/// One model call that the loop asked for.
struct Call {
    purpose: Purpose,
    system_prompt: String,
    items: Vec<ConversationItem>,
    tools: Menu,
}

struct Run {
    result: Result<String, AgentError>,
    calls: Vec<Call>,
    state: LoopState,
    removed: Option<String>,
    dump: Option<String>,
}

fn reply(text: &str) -> ChatReply {
    ChatReply { text: text.to_string(), tool_calls: vec![], usage: Usage::default() }
}

fn tool_reply(id: &str, name: &str, arguments: &str) -> ChatReply {
    ChatReply {
        text: String::new(),
        tool_calls: vec![ToolCall {
            id: id.to_string(),
            name: name.to_string(),
            arguments: arguments.to_string(),
        }],
        usage: Usage { input_tokens: 3, output_tokens: 2, cached_input_tokens: 1 },
    }
}

fn request(has_tools: bool, calls: u32) -> RunRequest {
    RunRequest {
        system_prompt: "SYSTEM PROMPT".to_string(),
        user_prompt: "review this diff".to_string(),
        has_tools,
        specs: vec![ToolSpec {
            name: "read_file".to_string(),
            description: "read".to_string(),
            parameters: "{}".to_string(),
        }],
        max_tool_calls: calls,
    }
}

/// Threshold at three quarters of the window, a quarter kept, half for a summary.
fn loop_with(window: u64) -> AgentLoop {
    AgentLoop::new(true, window * 3 / 4, window / 4, window / 2, 4_000, window)
}

/// Drive the loop with scripted answers; tools answer with what they are asked
/// for, and reading the dump gives its text.
fn drive(agent: &AgentLoop, req: &RunRequest, script: Vec<Script>) -> Run {
    let mut calls: Vec<Call> = Vec::new();
    let mut dump: Option<String> = None;
    let (mut state, mut action) = agent.begin(req);
    loop {
        let event = match action {
            Action::Call { purpose, system_prompt, items, tools } => {
                let answer = match script.get(calls.len()) {
                    Some(step) => step(&items),
                    None => Ok(reply("done")),
                };
                calls.push(Call { purpose, system_prompt, items, tools });
                Event::Replied(answer)
            }
            Action::RunTool { call, .. } => Event::ToolRan(if call.arguments.contains("context-") {
                dump.clone().unwrap_or("file does not exist".to_string())
            } else if call.arguments.contains("lib.rs") {
                "fn main() {}\n".to_string()
            } else {
                "nothing".to_string()
            }),
            Action::WriteDump { text } => {
                dump = Some(text);
                Event::Dumped {
                    relative: ".hoverstare/context-1.md".to_string(),
                    written: true,
                }
            }
            Action::Finish { result, remove } => {
                return Run { result, calls, state, removed: remove, dump };
            }
        };
        let next = agent.step(req, state, event);
        state = next.0;
        action = next.1;
    }
}

fn has_user(items: &[ConversationItem], part: &str) -> bool {
    items
        .iter()
        .any(|item| matches!(item, ConversationItem::User { text } if text.contains(part)))
}

fn has_result(items: &[ConversationItem], part: &str) -> bool {
    items
        .iter()
        .any(|item| matches!(item, ConversationItem::ToolResult { text, .. } if text.contains(part)))
}

#[test]
fn a_plain_answer_needs_one_call() {
    let run = drive(
        &loop_with(100_000),
        &request(false, 0),
        vec![Box::new(|_| Ok(reply("{\"findings\":[]}")))],
    );
    assert_eq!(run.result.unwrap(), "{\"findings\":[]}");
    assert_eq!(run.calls.len(), 1);
    assert_eq!(run.calls[0].system_prompt, "SYSTEM PROMPT");
}

#[test]
fn tool_calls_are_executed_and_fed_back() {
    let run = drive(
        &loop_with(100_000),
        &request(true, 5),
        vec![
            Box::new(|_| Ok(tool_reply("1", "read_file", "{\"path\":\"lib.rs\"}"))),
            Box::new(|_| Ok(reply("done"))),
        ],
    );
    assert_eq!(run.result.unwrap(), "done");
    assert_eq!(run.state.trace.len(), 1);
    assert_eq!(run.state.trace[0].name, "read_file");
    assert_eq!(run.state.trace[0].result_bytes, 13);
    assert_eq!(run.calls.len(), 2);
    assert!(has_result(&run.calls[1].items, "fn main"), "tool output must be fed back to the model");
    assert_eq!(run.state.usage.input_tokens, 3);
}

#[test]
fn below_the_threshold_nothing_is_compacted() {
    let mut req = request(true, 5);
    req.user_prompt = "x".repeat(4_000);
    let run = drive(&loop_with(1_000_000), &req, vec![Box::new(|_| Ok(reply("done")))]);
    assert_eq!(run.calls.len(), 1, "no summarization request is sent");
}

#[test]
fn the_threshold_replaces_the_prefix_and_keeps_the_system_prompt() {
    let mut req = request(true, 5);
    req.user_prompt = "x".repeat(4_000);
    let run = drive(
        &loop_with(1_000),
        &req,
        vec![
            Box::new(|_| Ok(tool_reply("1", "glob", "{\"pattern\":\"*.rs\"}"))),
            Box::new(|_| Ok(reply("## Goal\nget the review done\n## Progress\ndiff read"))),
            Box::new(|_| Ok(reply("final"))),
        ],
    );
    assert_eq!(run.result.unwrap(), "final");
    assert_eq!(run.calls.len(), 3);
    assert_eq!(run.calls[1].purpose, Purpose::Threshold);
    assert!(run.calls[1].system_prompt.contains("Compress a coding conversation"));
    assert!(has_user(&run.calls[1].items, "<conversation>"));
    assert_eq!(run.calls[2].system_prompt, "SYSTEM PROMPT");
    assert!(
        has_user(&run.calls[2].items, "get the review done"),
        "the summary replaces the dropped prefix"
    );
}

#[test]
fn a_failed_summarizer_leaves_the_deterministic_digest() {
    let mut req = request(true, 5);
    req.user_prompt = "x".repeat(4_000);
    let run = drive(
        &loop_with(1_000),
        &req,
        vec![
            Box::new(|_| Ok(tool_reply("1", "glob", "{\"pattern\":\"*.rs\"}"))),
            Box::new(|_| Err(AgentError::Backend("summarizer exploded".to_string()))),
            Box::new(|_| Ok(reply("final"))),
        ],
    );
    assert_eq!(run.result.unwrap(), "final");
    assert_eq!(run.calls.len(), 3);
    assert!(
        run.calls[2].items.iter().any(|item| matches!(
            item,
            ConversationItem::User { text } if text.starts_with("[Earlier conversation summary]")
        )),
        "the digest stands in for the dropped turns"
    );
}

#[test]
fn an_overflow_is_recovered_with_a_dump_and_retried_once() {
    let mut req = request(true, 8);
    req.user_prompt = "x".repeat(4_000);
    let run = drive(
        &loop_with(2_000),
        &req,
        vec![
            Box::new(|_| Ok(tool_reply("1", "read_file", "{\"path\":\"lib.rs\"}"))),
            Box::new(|_| {
                Err(AgentError::ContextOverflow(
                    "This model's maximum context length is 2000 tokens".to_string(),
                ))
            }),
            // The summarization run reads the dump the prompt names.
            Box::new(|items| {
                assert!(has_user(items, ".hoverstare/context-1.md"), "the prompt names the dump");
                Ok(tool_reply("2", "read_file", "{\"path\":\".hoverstare/context-1.md\"}"))
            }),
            Box::new(|_| Ok(reply("## Goal\nprecise summary"))),
            Box::new(|_| Ok(reply("recovered"))),
        ],
    );
    assert_eq!(run.result.unwrap(), "recovered");
    let summarizer = run
        .calls
        .iter()
        .position(|call| has_user(&call.items, "<crude-digest>"))
        .expect("a summarizer call carrying the digest");
    assert_eq!(run.calls[summarizer].tools, Menu::ReadOnly);
    let after_read = &run.calls[summarizer + 1];
    assert!(
        has_result(&after_read.items, "Dropped conversation context"),
        "the summarizer read the dumped conversation"
    );
    assert!(!has_result(&after_read.items, "file does not exist"));
    let retried = run.calls.last().expect("retried call");
    assert!(
        has_user(&retried.items, "[Earlier conversation summary]")
            && has_user(&retried.items, "precise summary"),
        "the precise summary replaces the digest before the retry"
    );
    assert!(run.dump.unwrap().contains("[user]\nxxx"));
    assert_eq!(
        run.removed.as_deref(),
        Some(".hoverstare/context-1.md"),
        "the dump is removed after the run"
    );
}

#[test]
fn a_second_overflow_is_not_retried_forever() {
    let mut req = request(true, 8);
    req.user_prompt = "x".repeat(4_000);
    let run = drive(
        &loop_with(4_000),
        &req,
        vec![
            Box::new(|_| Ok(tool_reply("1", "glob", "{\"pattern\":\"*.rs\"}"))),
            Box::new(|_| Err(AgentError::ContextOverflow("too long".to_string()))),
            Box::new(|_| Ok(reply("## Goal\nsummary"))),
            Box::new(|_| Err(AgentError::ContextOverflow("still too long".to_string()))),
        ],
    );
    assert!(matches!(run.result, Err(AgentError::ContextOverflow(_))));
    assert_eq!(run.calls.len(), 4, "one recovery, one retry, no loop");
}

#[test]
fn no_tools_are_offered_once_the_budget_is_spent() {
    let run = drive(
        &loop_with(100_000),
        &request(true, 1),
        vec![
            Box::new(|_| Ok(tool_reply("1", "glob", "{}"))),
            Box::new(|_| Ok(reply("done"))),
        ],
    );
    assert_eq!(run.calls[0].tools, Menu::Full);
    assert_eq!(run.calls[1].tools, Menu::Nothing);
}

#[test]
fn a_run_without_tools_answers_calls_itself() {
    let run = drive(
        &loop_with(100_000),
        &request(false, 5),
        vec![
            Box::new(|_| Ok(tool_reply("1", "glob", "{}"))),
            Box::new(|_| Ok(reply("done"))),
        ],
    );
    assert!(has_result(&run.calls[1].items, "no tools are available in this run"));
    assert!(run.state.trace.is_empty());
    // Nor does it recover from an overflow.
    let run = drive(
        &loop_with(100_000),
        &request(false, 5),
        vec![Box::new(|_| Err(AgentError::ContextOverflow("too long".to_string())))],
    );
    assert_eq!(run.result, Err(AgentError::ContextOverflow("too long".to_string())));
}

#[test]
fn the_summarizer_gives_up_after_its_steps() {
    let mut req = request(true, 8);
    req.user_prompt = "x".repeat(4_000);
    let mut script: Vec<Script> = vec![
        Box::new(|_| Ok(tool_reply("1", "glob", "{}"))),
        Box::new(|_| Err(AgentError::ContextOverflow("too long".to_string()))),
    ];
    for _ in 0..6 {
        script.push(Box::new(|_| Ok(tool_reply("2", "glob", "{}"))));
    }
    script.push(Box::new(|_| Ok(reply("after all"))));
    let run = drive(&loop_with(2_000), &req, script);
    assert_eq!(run.result.unwrap(), "after all");
    assert_eq!(run.calls.iter().filter(|c| c.purpose == Purpose::Overflow).count(), 6);
}

#[test]
fn disabled_compaction_lets_an_overflow_fail() {
    let agent = AgentLoop::new(false, 1, 1, 1, 10, 4);
    assert_eq!(agent.window(), 4);
    let run = drive(
        &agent,
        &request(true, 5),
        vec![Box::new(|_| Err(AgentError::ContextOverflow("too long".to_string())))],
    );
    assert_eq!(run.calls.len(), 1);
    assert!(run.result.is_err());
}

#[test]
fn size_of_a_call_counts_the_menu() {
    let req = request(true, 1);
    let items = vec![ConversationItem::User { text: "abcd".to_string() }];
    // 13 + 4 + (9 + 4 + 2) characters in groups of four.
    assert_eq!(call_tokens(&req.system_prompt, &items, &req.specs), Some(4 + 1 + 3 + 1 + 1));
}

#[test]
fn a_summary_is_found_again() {
    let items = vec![
        ConversationItem::User { text: "a".to_string() },
        ConversationItem::User { text: "b".to_string() },
    ];
    assert_eq!(previous_summary(&items), None);
    let items = apply_plan(items, Plan { start: 0, cut: 0 }, "short");
    assert_eq!(items.len(), 2);
    assert_eq!(previous_summary(&items), Some(format!("{SUMMARY_PREFIX}\nshort")));
}

#[test]
fn a_failure_of_the_backend_ends_the_run() {
    let run = drive(
        &loop_with(100_000),
        &request(true, 5),
        vec![Box::new(|_| Err(AgentError::Backend("503".to_string())))],
    );
    assert_eq!(run.result, Err(AgentError::Backend("503".to_string())));
    assert_eq!(run.calls.len(), 1);
    assert_eq!(run.removed, None);
}

#[test]
fn compaction_keeps_the_tail_as_it_is() {
    let items: Vec<ConversationItem> =
        ["a", "b", "c"].iter().map(|t| ConversationItem::User { text: t.to_string() }).collect();
    let replaced = apply_plan(items.clone(), Plan { start: 0, cut: 1 }, "summary");
    assert_eq!(replaced.len(), 2);
    assert_eq!(replaced[1], items[2]);
    // Items in front of the plan are pinned.
    let replaced = apply_plan(items.clone(), Plan { start: 1, cut: 1 }, "summary");
    assert_eq!(replaced.len(), 3);
    assert_eq!(replaced[0], items[0]);
    assert!(has_user(&replaced[1..2], "summary"));
    assert_eq!(replaced[2], items[2]);
}

#[test]
fn the_menu_goes_when_the_calls_of_the_replies_reach_the_budget() {
    let twice = || {
        let mut first = tool_reply("1", "read_file", "{\"path\":\"lib.rs\"}");
        first.tool_calls.push(first.tool_calls[0].clone());
        first
    };
    let run = drive(
        &loop_with(100_000),
        &request(true, 3),
        vec![
            Box::new(move |_| Ok(twice())),
            Box::new(|_| Ok(tool_reply("3", "read_file", "{\"path\":\"lib.rs\"}"))),
            Box::new(|_| Ok(reply("done"))),
        ],
    );
    let menus: Vec<Menu> = run.calls.iter().map(|call| call.tools).collect();
    assert_eq!(menus, vec![Menu::Full, Menu::Full, Menu::Nothing]);
    assert!(run.calls.iter().all(|call| call.system_prompt == "SYSTEM PROMPT"));
    assert_eq!(run.state.trace.len(), 3);
}
