//! What is exchanged with the completion service: messages, tool calls, requests and events.
use crate::json::{Json, JsonView};
use vstd::prelude::*;

verus! {

/// A message of a conversation.
#[derive(Debug, PartialEq, Eq)]
pub enum AgentMessage {
    System { content: String },
    User { content: String },
    Assistant { content: String, tool_calls: Option<Vec<AgentToolCall>> },
    Tool { tool_call_id: String, content: String },
}

/// A call of a tool that the model asked for; the arguments are the text it wrote.
#[derive(Debug, PartialEq, Eq)]
pub struct AgentToolCall {
    pub id: String,
    pub name: String,
    pub arguments: String,
}

/// The mathematical value of an [`AgentToolCall`].
pub struct CallView {
    pub id: Seq<char>,
    pub name: Seq<char>,
    pub arguments: Seq<char>,
}

/// The mathematical value of an [`AgentMessage`].
pub enum MessageView {
    System(Seq<char>),
    User(Seq<char>),
    Assistant(Seq<char>, Option<Seq<CallView>>),
    Tool(Seq<char>, Seq<char>),
}

impl View for AgentToolCall {
    type V = CallView;

    open spec fn view(&self) -> CallView {
        CallView { id: self.id@, name: self.name@, arguments: self.arguments@ }
    }
}

impl DeepView for AgentToolCall {
    type V = CallView;

    open spec fn deep_view(&self) -> CallView {
        self@
    }
}

impl View for AgentMessage {
    type V = MessageView;

    open spec fn view(&self) -> MessageView {
        match self {
            AgentMessage::System { content } => MessageView::System(content@),
            AgentMessage::User { content } => MessageView::User(content@),
            AgentMessage::Assistant { content, tool_calls } => MessageView::Assistant(
                content@,
                tool_calls.deep_view(),
            ),
            AgentMessage::Tool { tool_call_id, content } => MessageView::Tool(
                tool_call_id@,
                content@,
            ),
        }
    }
}

impl DeepView for AgentMessage {
    type V = MessageView;

    open spec fn deep_view(&self) -> MessageView {
        self@
    }
}

impl Clone for AgentToolCall {
    fn clone(&self) -> (r: Self)
        ensures
            r == *self,
    {
        AgentToolCall {
            id: self.id.clone(),
            name: self.name.clone(),
            arguments: self.arguments.clone(),
        }
    }
}

/// Copies a list of calls.
pub fn copy_calls(calls: &Vec<AgentToolCall>) -> (r: Vec<AgentToolCall>)
    ensures
        r@ == calls@,
        r.deep_view() == calls.deep_view(),
{
    let mut r: Vec<AgentToolCall> = Vec::new();
    let mut i: usize = 0;
    while i < calls.len()
        invariant
            i <= calls@.len(),
            r@ == calls@.take(i as int),
        decreases calls.len() - i,
    {
        r.push(calls[i].clone());
        i += 1;
    }
    assert(r@ =~= calls@);
    r
}

impl Clone for AgentMessage {
    fn clone(&self) -> (r: Self)
        ensures
            r@ == self@,
    {
        match self {
            AgentMessage::System { content } => AgentMessage::System { content: content.clone() },
            AgentMessage::User { content } => AgentMessage::User { content: content.clone() },
            AgentMessage::Assistant { content, tool_calls } => AgentMessage::Assistant {
                content: content.clone(),
                tool_calls: match tool_calls {
                    Some(calls) => Some(copy_calls(calls)),
                    None => None,
                },
            },
            AgentMessage::Tool { tool_call_id, content } => AgentMessage::Tool {
                tool_call_id: tool_call_id.clone(),
                content: content.clone(),
            },
        }
    }
}

/// Copies a conversation.
pub fn copy_messages(messages: &Vec<AgentMessage>) -> (r: Vec<AgentMessage>)
    ensures
        r.deep_view() == messages.deep_view(),
{
    let mut r: Vec<AgentMessage> = Vec::new();
    let mut i: usize = 0;
    while i < messages.len()
        invariant
            i <= messages@.len(),
            r@.len() == i,
            forall|k: int| 0 <= k < i ==> (#[trigger] r@[k])@ == messages@[k]@,
        decreases messages.len() - i,
    {
        r.push(messages[i].clone());
        i += 1;
    }
    assert(r.deep_view() =~= messages.deep_view());
    r
}

impl AgentMessage {
    /// A message of the user.
    pub fn user(content: String) -> (r: Self)
        ensures
            r@ == MessageView::User(content@),
    {
        AgentMessage::User { content }
    }

    /// A message that instructs the model.
    pub fn system(content: String) -> (r: Self)
        ensures
            r@ == MessageView::System(content@),
    {
        AgentMessage::System { content }
    }
}

/// How a tool is described to the model; the parameters are a JSON schema.
#[derive(Debug, PartialEq, Eq)]
pub struct AgentToolDefinition {
    pub name: String,
    pub description: String,
    pub parameters: Json,
}

/// The mathematical value of an [`AgentToolDefinition`].
pub struct DefinitionView {
    pub name: Seq<char>,
    pub description: Seq<char>,
    pub parameters: JsonView,
}

impl View for AgentToolDefinition {
    type V = DefinitionView;

    open spec fn view(&self) -> DefinitionView {
        DefinitionView {
            name: self.name@,
            description: self.description@,
            parameters: self.parameters@,
        }
    }
}

impl DeepView for AgentToolDefinition {
    type V = DefinitionView;

    open spec fn deep_view(&self) -> DefinitionView {
        self@
    }
}

impl Clone for AgentToolDefinition {
    fn clone(&self) -> (r: Self)
        ensures
            r@ == self@,
    {
        AgentToolDefinition {
            name: self.name.clone(),
            description: self.description.clone(),
            parameters: self.parameters.clone(),
        }
    }
}

/// A hint that the service may keep the prompt in its cache.
#[derive(Debug, Clone, PartialEq, Eq)]
pub struct CacheControl {
    pub kind: String,
}

impl Default for CacheControl {
    fn default() -> (r: Self)
        ensures
            r.kind@ == "ephemeral"@,
    {
        CacheControl { kind: "ephemeral".to_owned() }
    }
}

/// A request for one completion. The temperature is given by the bits of its double.
#[derive(Debug, Clone, PartialEq, Eq)]
pub struct AgentCompletionRequest {
    pub model: String,
    pub messages: Vec<AgentMessage>,
    pub tools: Vec<AgentToolDefinition>,
    pub web_search: Option<bool>,
    pub session_id: Option<String>,
    pub cache_control: Option<CacheControl>,
    pub max_output_tokens: Option<u32>,
    pub max_cost_micro: Option<u64>,
    pub temperature_bits: Option<u64>,
}

/// The tokens that one completion used.
#[derive(Debug, Clone, Copy, PartialEq, Eq, Structural)]
pub struct TokenUsage {
    pub input_tokens: u64,
    pub output_tokens: u64,
    pub cached_tokens: Option<u64>,
    pub cache_write_tokens: Option<u64>,
}

impl Default for TokenUsage {
    fn default() -> (r: Self)
        ensures
            r == (TokenUsage {
                input_tokens: 0,
                output_tokens: 0,
                cached_tokens: None,
                cache_write_tokens: None,
            }),
    {
        TokenUsage {
            input_tokens: 0,
            output_tokens: 0,
            cached_tokens: None,
            cache_write_tokens: None,
        }
    }
}

/// A source that a completion cites.
#[derive(Debug, PartialEq, Eq)]
pub struct SourceCitation {
    pub url: String,
    pub title: String,
    pub content: Option<String>,
}

/// The mathematical value of a [`SourceCitation`].
pub struct CitationView {
    pub url: Seq<char>,
    pub title: Seq<char>,
    pub content: Option<Seq<char>>,
}

impl View for SourceCitation {
    type V = CitationView;

    open spec fn view(&self) -> CitationView {
        CitationView { url: self.url@, title: self.title@, content: self.content.deep_view() }
    }
}

impl DeepView for SourceCitation {
    type V = CitationView;

    open spec fn deep_view(&self) -> CitationView {
        self@
    }
}

impl Clone for SourceCitation {
    fn clone(&self) -> (r: Self)
        ensures
            r@ == self@,
    {
        SourceCitation {
            url: self.url.clone(),
            title: self.title.clone(),
            content: match &self.content {
                Some(content) => Some(content.clone()),
                None => None,
            },
        }
    }
}

/// Why a completion ended.
#[derive(Debug, Clone, Copy, PartialEq, Eq, Structural)]
pub enum FinishReason {
    Complete,
    Stopped,
    ToolCalls,
}

impl Default for FinishReason {
    fn default() -> (r: Self)
        ensures
            r == FinishReason::Complete,
    {
        FinishReason::Complete
    }
}

/// An event of the stream of one completion.
#[derive(Debug, Clone, PartialEq, Eq)]
pub enum GenerationStreamEvent {
    Delta { text: String },
    Reasoning { text: String },
    ToolCall { tool_call_id: String, tool_name: String, args: String },
    ToolResult { tool_call_id: String, tool_name: String, result: String, is_error: bool },
    Citation { url: String, title: String, content: Option<String> },
    Done {
        message_id: Option<String>,
        usage: Option<TokenUsage>,
        cost_micro: Option<u64>,
        finish_reason: FinishReason,
    },
    Error { code: String, message: String, retryable: bool },
}

/// Whether an error of the stream that does not say so may be retried.
pub fn default_true() -> (r: bool)
    ensures
        r,
{
    true
}

/// A model that the service offers.
#[derive(Debug, PartialEq, Eq)]
pub struct ModelSummary {
    pub model_id: String,
    pub display_name: String,
    pub category: String,
    pub supports_tools: bool,
    pub context_window: u64,
    pub credit_price_micro: Option<u64>,
}

impl Clone for ModelSummary {
    fn clone(&self) -> (r: Self)
        ensures
            r == *self,
    {
        ModelSummary {
            model_id: self.model_id.clone(),
            display_name: self.display_name.clone(),
            category: self.category.clone(),
            supports_tools: self.supports_tools,
            context_window: self.context_window,
            credit_price_micro: self.credit_price_micro,
        }
    }
}

/// The credits of an account.
#[derive(Debug, Clone, PartialEq, Eq)]
pub struct BalanceSummary {
    pub available: i64,
    pub reserved: i64,
    pub display: String,
}

/// What the service is told of a session.
#[derive(Debug, Clone, PartialEq, Eq)]
pub struct AgentSessionMetadata {
    pub schema_version: u8,
    pub session_id: String,
    pub title: Option<String>,
    pub summary: Option<String>,
    pub workspace_name: Option<String>,
    pub models: Vec<String>,
    pub cost_micro: u64,
    pub rounds: u32,
    pub state: String,
    pub source: String,
    pub started_at: String,
    pub updated_at: String,
    pub archived_at: Option<String>,
    pub parent_session_id: Option<String>,
}

/// A session as the service keeps it.
#[derive(Debug, Clone, PartialEq, Eq)]
pub struct AgentSessionRecord {
    pub metadata: AgentSessionMetadata,
    pub id: String,
    pub created_at: String,
    pub server_updated_at: String,
}

/// One page of the sessions that the service keeps.
#[derive(Debug, Clone, PartialEq, Eq)]
pub struct AgentSessionList {
    pub items: Vec<AgentSessionRecord>,
    pub next_before: Option<String>,
}

} // verus!
