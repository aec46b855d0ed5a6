//! Conversation messages exchanged with a language model.
//!
//! The runtime reads from a message only its role, its content blocks, the
//! stop reason, the reported token usage and the error text; this module holds
//! exactly those as plain values.
use vstd::prelude::*;

verus! {

/// Why the model stopped producing output.
#[derive(Debug, Clone, Copy, PartialEq, Eq, Structural)]
pub enum StopReason {
    Stop,
    Length,
    ToolUse,
    Error,
    Aborted,
}

/// Token usage reported by the provider for one response.
#[derive(Debug, Clone, Copy, PartialEq, Eq, Structural)]
pub struct Usage {
    pub input_tokens: u64,
    pub output_tokens: u64,
    pub total_tokens: u64,
}

/// A tool invocation requested by the model. `arguments` is JSON text.
#[derive(Debug)]
pub struct ToolCall {
    pub id: String,
    pub name: String,
    pub arguments: String,
}

/// One content block of a message.
#[derive(Debug)]
pub enum Content {
    Text { text: String },
    Image { mime_type: String, data: String },
    Thinking { thinking: String },
    ToolCall(ToolCall),
}

/// A message written by the user.
#[derive(Debug)]
pub struct UserMessage {
    pub content: Vec<Content>,
    /// Milliseconds since the Unix epoch.
    pub timestamp: u64,
}

/// A response produced by the model.
#[derive(Debug)]
pub struct AssistantMessage {
    pub content: Vec<Content>,
    pub usage: Usage,
    pub stop_reason: StopReason,
    pub error_message: Option<String>,
    /// Milliseconds since the Unix epoch.
    pub timestamp: u64,
}

/// The outcome of executing one tool call. `details` is JSON text.
#[derive(Debug)]
pub struct ToolResultMessage {
    pub tool_call_id: String,
    pub tool_name: String,
    pub content: Vec<Content>,
    pub details: Option<String>,
    pub is_error: bool,
    /// Milliseconds since the Unix epoch.
    pub timestamp: u64,
}

/// A message of the conversation.
#[derive(Debug)]
pub enum AgentMessage {
    User(UserMessage),
    Assistant(AssistantMessage),
    ToolResult(ToolResultMessage),
}

/// Abstract value of a tool call.
pub struct ToolCallView {
    pub id: Seq<char>,
    pub name: Seq<char>,
    pub arguments: Seq<char>,
}

/// Abstract value of a content block.
pub enum ContentView {
    Text { text: Seq<char> },
    Image { mime_type: Seq<char>, data: Seq<char> },
    Thinking { thinking: Seq<char> },
    ToolCall(ToolCallView),
}

/// Abstract value of a message.
pub enum MessageView {
    User { content: Seq<ContentView>, timestamp: u64 },
    Assistant {
        content: Seq<ContentView>,
        usage: Usage,
        stop_reason: StopReason,
        error_message: Option<Seq<char>>,
        timestamp: u64,
    },
    ToolResult {
        tool_call_id: Seq<char>,
        tool_name: Seq<char>,
        content: Seq<ContentView>,
        details: Option<Seq<char>>,
        is_error: bool,
        timestamp: u64,
    },
}

impl View for ToolCall {
    type V = ToolCallView;

    open spec fn view(&self) -> ToolCallView {
        ToolCallView { id: self.id@, name: self.name@, arguments: self.arguments@ }
    }
}

impl View for Content {
    type V = ContentView;

    open spec fn view(&self) -> ContentView {
        match self {
            Content::Text { text } => ContentView::Text { text: text@ },
            Content::Image { mime_type, data } => ContentView::Image {
                mime_type: mime_type@,
                data: data@,
            },
            Content::Thinking { thinking } => ContentView::Thinking { thinking: thinking@ },
            Content::ToolCall(tc) => ContentView::ToolCall(tc@),
        }
    }
}

/// Abstract value of a list of content blocks.
pub open spec fn contents_view(v: Seq<Content>) -> Seq<ContentView> {
    v.map_values(|c: Content| c@)
}

/// Abstract value of an optional string.
pub open spec fn opt_str_view(o: Option<String>) -> Option<Seq<char>> {
    match o {
        Some(s) => Some(s@),
        None => None,
    }
}

impl View for AgentMessage {
    type V = MessageView;

    open spec fn view(&self) -> MessageView {
        match self {
            AgentMessage::User(u) => MessageView::User {
                content: contents_view(u.content@),
                timestamp: u.timestamp,
            },
            AgentMessage::Assistant(a) => MessageView::Assistant {
                content: contents_view(a.content@),
                usage: a.usage,
                stop_reason: a.stop_reason,
                error_message: opt_str_view(a.error_message),
                timestamp: a.timestamp,
            },
            AgentMessage::ToolResult(t) => MessageView::ToolResult {
                tool_call_id: t.tool_call_id@,
                tool_name: t.tool_name@,
                content: contents_view(t.content@),
                details: opt_str_view(t.details),
                is_error: t.is_error,
                timestamp: t.timestamp,
            },
        }
    }
}

/// Abstract value of a list of messages.
pub open spec fn messages_view(v: Seq<AgentMessage>) -> Seq<MessageView> {
    v.map_values(|m: AgentMessage| m@)
}

/// Abstract value of an assistant message, as a message.
pub open spec fn assistant_view(a: AssistantMessage) -> MessageView {
    AgentMessage::Assistant(a)@
}

impl MessageView {
    pub open spec fn is_user(self) -> bool {
        self is User
    }

    pub open spec fn is_assistant(self) -> bool {
        self is Assistant
    }

    /// The content blocks of the message, whatever its role.
    pub open spec fn content(self) -> Seq<ContentView> {
        match self {
            MessageView::User { content, .. } => content,
            MessageView::Assistant { content, .. } => content,
            MessageView::ToolResult { content, .. } => content,
        }
    }
}

impl Clone for ToolCall {
    fn clone(&self) -> (r: Self)
        ensures
            r@ == self@,
    {
        ToolCall { id: self.id.clone(), name: self.name.clone(), arguments: self.arguments.clone() }
    }
}

impl Clone for Content {
    fn clone(&self) -> (r: Self)
        ensures
            r@ == self@,
    {
        match self {
            Content::Text { text } => Content::Text { text: text.clone() },
            Content::Image { mime_type, data } => Content::Image {
                mime_type: mime_type.clone(),
                data: data.clone(),
            },
            Content::Thinking { thinking } => Content::Thinking { thinking: thinking.clone() },
            Content::ToolCall(tc) => Content::ToolCall(tc.clone()),
        }
    }
}

/// A copy of a list of content blocks.
pub fn clone_contents(v: &Vec<Content>) -> (r: Vec<Content>)
    ensures
        contents_view(r@) == contents_view(v@),
{
    let r = v.clone();
    proof {
        assert(contents_view(r@) =~= contents_view(v@));
    }
    r
}

/// A copy of an optional string.
pub fn clone_opt_string(o: &Option<String>) -> (r: Option<String>)
    ensures
        opt_str_view(r) == opt_str_view(*o),
{
    match o {
        Some(s) => Some(s.clone()),
        None => None,
    }
}

impl Clone for UserMessage {
    fn clone(&self) -> (r: Self)
        ensures
            contents_view(r.content@) == contents_view(self.content@),
            r.timestamp == self.timestamp,
    {
        UserMessage { content: clone_contents(&self.content), timestamp: self.timestamp }
    }
}

impl Clone for AssistantMessage {
    fn clone(&self) -> (r: Self)
        ensures
            assistant_view(r) == assistant_view(*self),
    {
        AssistantMessage {
            content: clone_contents(&self.content),
            usage: self.usage,
            stop_reason: self.stop_reason,
            error_message: clone_opt_string(&self.error_message),
            timestamp: self.timestamp,
        }
    }
}

impl Clone for ToolResultMessage {
    fn clone(&self) -> (r: Self)
        ensures
            AgentMessage::ToolResult(r)@ == AgentMessage::ToolResult(*self)@,
    {
        ToolResultMessage {
            tool_call_id: self.tool_call_id.clone(),
            tool_name: self.tool_name.clone(),
            content: clone_contents(&self.content),
            details: clone_opt_string(&self.details),
            is_error: self.is_error,
            timestamp: self.timestamp,
        }
    }
}

impl Clone for AgentMessage {
    fn clone(&self) -> (r: Self)
        ensures
            r@ == self@,
    {
        match self {
            AgentMessage::User(u) => AgentMessage::User(u.clone()),
            AgentMessage::Assistant(a) => AgentMessage::Assistant(a.clone()),
            AgentMessage::ToolResult(t) => AgentMessage::ToolResult(t.clone()),
        }
    }
}

/// A copy of a list of messages.
pub fn clone_messages(v: &Vec<AgentMessage>) -> (r: Vec<AgentMessage>)
    ensures
        messages_view(r@) == messages_view(v@),
{
    let r = v.clone();
    proof {
        assert(messages_view(r@) =~= messages_view(v@));
    }
    r
}

impl AgentMessage {
    /// Whether the message was written by the user.
    pub fn is_user(&self) -> (b: bool)
        ensures
            b == self@.is_user(),
    {
        matches!(self, AgentMessage::User(_))
    }

    /// Whether the message was produced by the model.
    pub fn is_assistant(&self) -> (b: bool)
        ensures
            b == self@.is_assistant(),
    {
        matches!(self, AgentMessage::Assistant(_))
    }
}

/// How the calls of a tool may be scheduled within one turn.
#[derive(Debug, Clone, Copy, PartialEq, Eq, Structural)]
pub enum ToolExecutionMode {
    /// Calls may run concurrently with the other calls of the turn.
    Parallel,
    /// The turn's calls run one after another.
    Sequential,
}

/// What the loop knows of a registered tool. `parameters` is the JSON schema
/// of its arguments.
#[derive(Debug)]
pub struct ToolInfo {
    pub name: String,
    pub description: String,
    pub parameters: String,
    pub execution_mode: ToolExecutionMode,
}

/// What a tool execution returns. `details` is JSON text.
#[derive(Debug)]
pub struct AgentToolResult {
    pub content: Vec<Content>,
    pub details: Option<String>,
    pub is_error: bool,
    /// The tool asks the loop to stop after this turn.
    pub terminate: bool,
}

} // verus!
