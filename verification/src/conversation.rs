//! The vocabulary of a conversation with a model.

use vstd::prelude::*;

use crate::text;

verus! {

/// One tool call of a model reply. The arguments are the compact JSON text.
#[derive(Debug, Clone, PartialEq, Eq)]
pub struct ToolCall {
    pub id: String,
    pub name: String,
    pub arguments: String,
}

/// One item of a conversation.
#[derive(Debug, Clone, PartialEq, Eq)]
pub enum ConversationItem {
    User { text: String },
    Assistant { text: String, tool_calls: Vec<ToolCall> },
    ToolResult { call_id: String, text: String },
}

/// What a tool call holds.
#[verifier::ext_equal]
pub struct CallView {
    pub id: Seq<char>,
    pub name: Seq<char>,
    pub arguments: Seq<char>,
}

/// What a conversation item holds.
#[verifier::ext_equal]
pub enum ItemView {
    User { text: Seq<char> },
    Assistant { text: Seq<char>, tool_calls: Seq<CallView> },
    ToolResult { call_id: Seq<char>, text: Seq<char> },
}

impl View for ToolCall {
    type V = CallView;

    open spec fn view(&self) -> CallView {
        CallView { id: self.id@, name: self.name@, arguments: self.arguments@ }
    }
}

/// The contents of tool calls.
pub open spec fn call_views(calls: Seq<ToolCall>) -> Seq<CallView> {
    calls.map_values(|c: ToolCall| c@)
}

impl View for ConversationItem {
    type V = ItemView;

    open spec fn view(&self) -> ItemView {
        match self {
            ConversationItem::User { text } => ItemView::User { text: text@ },
            ConversationItem::Assistant { text, tool_calls } => ItemView::Assistant {
                text: text@,
                tool_calls: call_views(tool_calls@),
            },
            ConversationItem::ToolResult { call_id, text } => ItemView::ToolResult {
                call_id: call_id@,
                text: text@,
            },
        }
    }
}

/// The contents of a conversation.
pub open spec fn item_views(items: Seq<ConversationItem>) -> Seq<ItemView> {
    items.map_values(|i: ConversationItem| i@)
}

impl ItemView {
    /// The text of an item.
    pub open spec fn text(self) -> Seq<char> {
        match self {
            ItemView::User { text } => text,
            ItemView::Assistant { text, .. } => text,
            ItemView::ToolResult { text, .. } => text,
        }
    }
}

impl ToolCall {
    /// A copy of the call.
    pub fn duplicate(&self) -> (r: ToolCall)
        ensures
            r@ == self@,
    {
        ToolCall {
            id: self.id.clone(),
            name: self.name.clone(),
            arguments: self.arguments.clone(),
        }
    }
}

/// Copies of tool calls.
pub fn copy_calls(calls: &[ToolCall]) -> (r: Vec<ToolCall>)
    ensures
        call_views(r@) == call_views(calls@),
{
    let mut out: Vec<ToolCall> = Vec::new();
    let mut i: usize = 0;
    while i < calls.len()
        invariant
            i <= calls@.len(),
            out@.len() == i,
            forall|k: int| 0 <= k < i ==> (#[trigger] out@[k])@ == calls@[k]@,
        decreases calls@.len() - i,
    {
        out.push(calls[i].duplicate());
        i = i + 1;
    }
    assert(call_views(out@) =~= call_views(calls@));
    out
}

impl ConversationItem {
    /// A copy of the item.
    pub fn duplicate(&self) -> (r: ConversationItem)
        ensures
            r@ == self@,
    {
        match self {
            ConversationItem::User { text } => ConversationItem::User { text: text.clone() },
            ConversationItem::Assistant { text, tool_calls } => ConversationItem::Assistant {
                text: text.clone(),
                tool_calls: copy_calls(tool_calls),
            },
            ConversationItem::ToolResult { call_id, text } => ConversationItem::ToolResult {
                call_id: call_id.clone(),
                text: text.clone(),
            },
        }
    }

    /// Whether the item is the result of a tool call.
    pub fn is_tool_result(&self) -> (r: bool)
        ensures
            r == (self@ is ToolResult),
    {
        match self {
            ConversationItem::ToolResult { .. } => true,
            _ => false,
        }
    }

    /// The text of the item.
    pub fn body(&self) -> (r: &str)
        ensures
            r@ == self@.text(),
    {
        match self {
            ConversationItem::User { text } => text.as_str(),
            ConversationItem::Assistant { text, .. } => text.as_str(),
            ConversationItem::ToolResult { text, .. } => text.as_str(),
        }
    }
}

/// Copies of a range of items.
pub fn copy_items(items: &[ConversationItem], from: usize, to: usize) -> (r: Vec<ConversationItem>)
    requires
        from <= to <= items@.len(),
    ensures
        item_views(r@) == item_views(items@).subrange(from as int, to as int),
{
    let mut out: Vec<ConversationItem> = Vec::new();
    let mut i: usize = from;
    while i < to
        invariant
            from <= i <= to <= items@.len(),
            out@.len() == i - from,
            forall|k: int| 0 <= k < i - from ==> (#[trigger] out@[k])@ == items@[from + k]@,
        decreases to - i,
    {
        out.push(items[i].duplicate());
        i = i + 1;
    }
    assert(item_views(out@) =~= item_views(items@).subrange(from as int, to as int));
    out
}

/// One more item at the end.
pub proof fn lemma_items_push(items: Seq<ConversationItem>, item: ConversationItem)
    ensures
        item_views(items.push(item)) == item_views(items).push(item@),
{
    assert(item_views(items.push(item)) =~= item_views(items).push(item@));
}

/// Tokens that one model call used.
#[derive(Debug, Clone, Copy, PartialEq, Eq, Structural, Default)]
pub struct Usage {
    pub input_tokens: u64,
    pub output_tokens: u64,
    pub cached_input_tokens: u64,
}

/// Tokens that the calls of a run used, and the number of calls.
#[derive(Debug, Clone, Copy, PartialEq, Eq, Structural, Default)]
pub struct UsageTotal {
    pub input_tokens: u64,
    pub output_tokens: u64,
    pub cached_input_tokens: u64,
    pub calls: u64,
}

/// Severity of a finding, from the least to the most severe.
#[derive(Debug, Clone, Copy, PartialEq, Eq, Structural)]
pub enum Severity {
    Low,
    Medium,
    High,
    Critical,
}

impl Severity {
    /// The name of a severity in reports.
    pub open spec fn name(self) -> Seq<char> {
        match self {
            Severity::Low => "low"@,
            Severity::Medium => "medium"@,
            Severity::High => "high"@,
            Severity::Critical => "critical"@,
        }
    }

    pub fn as_str(self) -> (r: &'static str)
        ensures
            r@ == self.name(),
    {
        match self {
            Severity::Low => "low",
            Severity::Medium => "medium",
            Severity::High => "high",
            Severity::Critical => "critical",
        }
    }

    /// High and above.
    pub open spec fn is_high(self) -> bool {
        self == Severity::High || self == Severity::Critical
    }

    /// Whether the severity is high or above.
    pub fn at_least_high(self) -> (r: bool)
        ensures
            r == self.is_high(),
    {
        self == Severity::High || self == Severity::Critical
    }
}

} // verus!
