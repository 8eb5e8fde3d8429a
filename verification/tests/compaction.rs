use hoverstare::compaction::{
    bound, conversation_tokens, digest, dump_path, dump_text, estimate_tokens, item_tokens,
    looks_like_context_overflow, overflow_user_prompt, plan, render_item, summarization_source,
    summary_system_prompt, summary_user_prompt, validate_summary, Plan,
};
use hoverstare::conversation::{ConversationItem, ToolCall};

fn user(text: &str) -> ConversationItem {
    ConversationItem::User {
        text: text.to_string(),
    }
}

fn assistant(text: &str) -> ConversationItem {
    ConversationItem::Assistant {
        text: text.to_string(),
        tool_calls: Vec::new(),
    }
}

fn call(id: &str) -> ConversationItem {
    ConversationItem::Assistant {
        text: String::new(),
        tool_calls: vec![ToolCall {
            id: id.to_string(),
            name: "read_file".to_string(),
            arguments: "{\"path\":\"src/lib.rs\"}".to_string(),
        }],
    }
}

fn result(id: &str, text: &str) -> ConversationItem {
    ConversationItem::ToolResult {
        call_id: id.to_string(),
        text: text.to_string(),
    }
}

#[test]
fn estimate_counts_cjk_by_character() {
    assert_eq!(estimate_tokens(""), 0);
    assert_eq!(estimate_tokens("abcd"), 1);
    assert_eq!(estimate_tokens("abcde"), 2);
    // CJK characters are one token each, not one per four.
    assert_eq!(estimate_tokens("上下文压缩"), 5);
    // Mixed text counts both halves: 4 ASCII = 1 token, 3 CJK = 3 tokens.
    assert_eq!(estimate_tokens("abcd上下文"), 4);
}

#[test]
fn plan_never_replaces_the_pinned_task_prompt() {
    let items = vec![user("the diff"), user("b"), user("c"), user("d")];
    let planned = plan(&items, 1, 1).expect("plan");
    assert_eq!(planned, Plan { start: 1, cut: 2 });
    assert!(planned.start >= 1, "the task prompt stays");
    let unpinned = plan(&items, 1, 0).expect("plan");
    assert_eq!(unpinned.start, 0);
    assert!(plan(&items[..2], 1, 1).is_none());
}

#[test]
fn plan_never_covers_the_newest_item() {
    let items = vec![user("a"), assistant("b"), user("c")];
    let planned = plan(&items, 1, 0).expect("plan");
    assert_eq!(planned, Plan { start: 0, cut: 1 });
    assert_eq!(planned.len(), 2);
    assert!(!planned.is_empty());
    assert!(plan(&items[2..], 1, 0).is_none());
    assert!(plan(&items, 1_000_000, 0).is_none());
}

#[test]
fn plan_drops_a_tool_pair_together() {
    let items = vec![user("a"), call("1"), result("1", "b"), user("c")];
    let planned = plan(&items, 1, 0).expect("plan");
    assert_eq!(planned.cut, 2);
    assert!(!matches!(
        items[planned.cut + 1],
        ConversationItem::ToolResult { .. }
    ));
}

#[test]
fn plan_moves_the_cut_back_until_a_tool_result_cannot_start_the_tail() {
    let items = vec![user("a"), call("1"), result("1", "b")];
    let planned = plan(&items, 1, 0).expect("plan");
    assert_eq!(planned.cut, 0);
    assert!(matches!(
        items[planned.cut + 1],
        ConversationItem::Assistant { .. }
    ));
}

#[test]
fn plan_refuses_when_only_a_tool_result_would_survive() {
    let items = vec![user("a"), result("1", "orphan")];
    assert!(plan(&items, 1, 0).is_none());
}

#[test]
fn digest_is_deterministic_bounded_and_keeps_the_previous_summary() {
    let items = vec![user("first"), assistant("second")];
    let text = digest(Some("earlier"), &items, 10_000);
    assert!(text.contains("Previous summary: earlier"));
    assert!(text.contains("user: first"));
    assert!(text.contains("assistant: second"));
    let bounded = digest(None, &items, 12);
    assert!(bounded.chars().count() <= 12);
    assert!(
        bounded.contains("second"),
        "the newest lines survive the bound"
    );
}

#[test]
fn summarization_source_degrades_to_the_digest_when_it_cannot_fit() {
    let items = vec![user(&"x".repeat(4_000)), assistant("y")];
    let (source, kind) = summarization_source(None, &items, 100_000, 1_000);
    assert_eq!(kind, "messages");
    assert!(source.contains("[user]"));
    let (source, kind) = summarization_source(None, &items, 10, 1_000);
    assert_eq!(kind, "digest");
    assert!(!source.contains("[user]"));
}

#[test]
fn validate_summary_enforces_the_contract() {
    let good = "## Goal\nship it\n## Progress\nhalf done";
    assert_eq!(validate_summary(good, 10_000).as_deref(), Some(good));
    assert!(validate_summary("   ", 10_000).is_none());
    assert!(validate_summary("free prose without sections", 10_000).is_none());
    let long = format!("## Goal\n{}", "x".repeat(500));
    let bounded = validate_summary(&long, 100).expect("bounded");
    assert!(bounded.contains("[summary truncated at 100 characters]"));
    assert!(bounded.chars().count() < long.chars().count());
}

#[test]
fn overflow_detection_is_narrow() {
    assert!(looks_like_context_overflow(
        "This model's maximum context length is 262144 tokens, however you requested 300000"
    ));
    assert!(looks_like_context_overflow(
        "prompt is too long: 300000 tokens > 262144 maximum"
    ));
    assert!(looks_like_context_overflow(
        "Please reduce the length of the input"
    ));
    assert!(!looks_like_context_overflow("connection reset by peer"));
    assert!(!looks_like_context_overflow(
        "rate limit exceeded, retry later"
    ));
    assert!(!looks_like_context_overflow(
        "read_file error: path outside the workspace"
    ));
}

#[test]
fn dump_writes_every_item_with_its_role() {
    let items = vec![user("hello"), call("1"), result("1", "file body")];
    let text = dump_text(&items);
    assert!(text.contains("Dropped conversation context"));
    assert!(text.contains("[user]\nhello"));
    assert!(text.contains("[tool calls]\n- read_file"));
    assert!(text.contains("[tool result 1]\nfile body"));
    assert_eq!(
        dump_path("/ws", "20260916-120000"),
        "/ws/.hoverstare/context-20260916-120000.md"
    );
    assert_eq!(dump_path("", "x"), ".hoverstare/context-x.md");
    assert_eq!(dump_path("/", "x"), "/.hoverstare/context-x.md");
}

#[test]
fn tokens_of_items_add_up() {
    // "read_file" is 9 characters, the arguments are 21.
    assert_eq!(item_tokens(&call("1")), 3 + 6);
    assert_eq!(item_tokens(&user("abcde")), 2);
    assert_eq!(conversation_tokens(&[user("abcde"), call("1"), result("1", "上")]), 2 + 9 + 1);
}

#[test]
fn items_are_rendered_with_their_role() {
    assert_eq!(render_item(&user("hello"), 3), "[user]\nhel\n... [text truncated]");
    assert_eq!(
        render_item(&call("1"), 10),
        "[assistant]\n\n[tool calls]\n- read_file {\"path\":\"src/lib.rs\"}"
    );
    assert_eq!(render_item(&result("7", "ok"), 10), "[tool result 7]\nok");
    assert_eq!(bound("abc", 3), "abc");
}

#[test]
fn digest_lines_are_flat_and_short() {
    let items = vec![user("a\nb"), assistant("  "), result("1", &"z".repeat(300))];
    let text = digest(Some("  "), &items, 10_000);
    assert_eq!(text, format!("user: a b\ntool: {}", "z".repeat(240)));
    assert_eq!(digest(None, &items, 5), "zzzzz");
}

#[test]
fn prompts_hand_on_the_previous_summary() {
    let prompt = summary_user_prompt("talk", Some(" old "), "threshold");
    assert_eq!(
        prompt,
        "<conversation>\ntalk\n</conversation>\n\n<previous-summary>\nold\n</previous-summary>\nPreserve everything still true from that summary, update what changed, and drop what is resolved.\n\nThe conversation above is the part being replaced (threshold form). Write the summary that takes its place."
    );
    let plain = summary_user_prompt("talk", Some("  "), "x");
    assert!(!plain.contains("previous-summary"));
    let overflow = overflow_user_prompt("crude", ".hoverstare/context-1.md", None);
    assert!(overflow.contains("is at .hoverstare/context-1.md and can be read"));
    assert!(overflow.contains("<crude-digest>\ncrude\n</crude-digest>"));
    let system = summary_system_prompt();
    assert!(system.starts_with("Compress a coding conversation into a durable summary of the work.\n"));
    assert!(system.ends_with("## Next Steps\n## Critical Context"));
}

#[test]
fn plan_keeps_a_tail_within_its_size() {
    // Ten items of one token each, three to keep.
    let items: Vec<ConversationItem> = (0..10).map(|i| user(&format!("{i}"))).collect();
    let planned = plan(&items, 3, 0).expect("plan");
    let tail = &items[planned.cut + 1..];
    assert_eq!(tail.len(), 3);
    assert!(conversation_tokens(tail) <= 3);
    // What is to be kept has room for everything: nothing to replace.
    assert!(plan(&items, 10, 0).is_none());
}
