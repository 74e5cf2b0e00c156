//! Chat requests and answers in the shapes of the hosted providers'
//! protocols: where each message of a conversation goes, how tool calls and
//! their results travel, and how the parts of an answer make one reply.
//! JSON values (tool arguments, parameter schemas) travel as their text.
use vstd::prelude::*;
use vstd::string::*;
use crate::export::MessageRole;
use crate::streaming::{
    ChatCompletion, CompletionView, FinishReason, TokenUsage, ToolCallText, ToolCallView,
    completion_view, finish_reason_spec, parse_finish_reason, parse_stop_reason, stop_reason_spec,
    tool_call_view, tool_calls_view, or_text,
};
use crate::split::{join_chars, join_with, strings_chars};
use crate::text::{owned, push_str};
use crate::document::opt_chars;

verus! {

/// A tool call, copied field by field.
fn copy_call(c: &ToolCallText) -> (r: ToolCallText)
    ensures
        tool_call_view(r) == tool_call_view(*c),
{
    ToolCallText {
        id: owned(c.id.as_str()),
        name: owned(c.name.as_str()),
        arguments: owned(c.arguments.as_str()),
    }
}

/// Optional text, copied.
fn copy_opt(o: &Option<String>) -> (r: Option<String>)
    ensures
        opt_chars(r) == opt_chars(*o),
{
    match o {
        Some(s) => Some(owned(s.as_str())),
        None => None,
    }
}

/// Tool calls, copied.
fn copy_calls(v: &Vec<ToolCallText>) -> (r: Vec<ToolCallText>)
    ensures
        tool_calls_view(r@) == tool_calls_view(v@),
{
    let mut r: Vec<ToolCallText> = Vec::new();
    let mut i: usize = 0;
    while i < v.len()
        invariant
            i <= v@.len(),
            tool_calls_view(r@) == tool_calls_view(v@.take(i as int)),
        decreases v@.len() - i,
    {
        let ghost before = r@;
        let c = copy_call(&v[i]);
        r.push(c);
        proof {
            assert(v@.take(i + 1) =~= v@.take(i as int).push(v@[i as int]));
            assert(tool_calls_view(v@.take(i as int).push(v@[i as int])) =~= tool_calls_view(
                v@.take(i as int),
            ).push(tool_call_view(v@[i as int])));
            assert(tool_calls_view(before.push(c)) =~= tool_calls_view(before).push(
                tool_call_view(c),
            ));
        }
        i = i + 1;
    }
    proof {
        assert(v@.take(v@.len() as int) =~= v@);
    }
    r
}

// ── the conversation ────────────────────────────────────────────────────────

/// A message of a conversation as it is sent to a provider: who wrote it,
/// its text, the tool calls it makes and, for a tool's answer, the call it
/// answers.
pub struct ChatMessage {
    pub role: MessageRole,
    pub content: String,
    pub tool_calls: Vec<ToolCallText>,
    pub tool_call_id: Option<String>,
}

/// A tool the model may call: its name, what it does and the JSON schema
/// of its parameters.
pub struct ToolDefinition {
    pub name: String,
    pub description: String,
    pub parameters: String,
}

/// A chat request: the model, the conversation, the token limit, whether
/// to stream the answer, and the tools on offer.
pub struct ChatRequest {
    pub model: String,
    pub messages: Vec<ChatMessage>,
    pub max_tokens: Option<u32>,
    pub stream: bool,
    pub tools: Vec<ToolDefinition>,
}

// ── the block protocol ──────────────────────────────────────────────────────

/// One block of a message in the block protocol.
pub enum ContentBlock {
    /// Text.
    Text(String),
    /// A tool call, its input as JSON text.
    ToolUse(ToolCallText),
    /// A tool's result: the identity of the call it answers, and its text.
    ToolResult(String, String),
}

/// Abstract value of a block.
pub enum BlockView {
    Text(Seq<char>),
    ToolUse(ToolCallView),
    ToolResult(Seq<char>, Seq<char>),
}

/// The abstract value of a block.
pub open spec fn block_view(b: ContentBlock) -> BlockView {
    match b {
        ContentBlock::Text(t) => BlockView::Text(t@),
        ContentBlock::ToolUse(c) => BlockView::ToolUse(tool_call_view(c)),
        ContentBlock::ToolResult(id, t) => BlockView::ToolResult(id@, t@),
    }
}

/// The abstract values of blocks.
pub open spec fn blocks_view(v: Seq<ContentBlock>) -> Seq<BlockView> {
    v.map_values(|b: ContentBlock| block_view(b))
}

/// The content of a message: plain text, or blocks.
pub enum MessageContent {
    Text(String),
    Blocks(Vec<ContentBlock>),
}

/// Abstract value of a message's content.
pub enum ContentView {
    Text(Seq<char>),
    Blocks(Seq<BlockView>),
}

/// A message of the block protocol: its role and its content.
pub struct AnthropicMessage {
    pub role: String,
    pub content: MessageContent,
}

/// Abstract value of a block-protocol message.
pub struct AnthropicMessageView {
    pub role: Seq<char>,
    pub content: ContentView,
}

/// The abstract value of a block-protocol message.
pub open spec fn anthropic_message_view(m: AnthropicMessage) -> AnthropicMessageView {
    AnthropicMessageView {
        role: m.role@,
        content: match m.content {
            MessageContent::Text(t) => ContentView::Text(t@),
            MessageContent::Blocks(b) => ContentView::Blocks(blocks_view(b@)),
        },
    }
}

/// The abstract values of block-protocol messages.
pub open spec fn anthropic_messages_view(v: Seq<AnthropicMessage>) -> Seq<AnthropicMessageView> {
    v.map_values(|m: AnthropicMessage| anthropic_message_view(m))
}

/// The abstract value of an optional block-protocol message.
pub open spec fn opt_message_view(o: Option<AnthropicMessage>) -> Option<AnthropicMessageView> {
    match o {
        Some(m) => Some(anthropic_message_view(m)),
        None => None,
    }
}

/// The block-protocol role of a message that is not the system's: the
/// assistant's own, or else the user's (a tool's result travels as the
/// user's).
pub open spec fn block_role(role: MessageRole) -> Seq<char> {
    match role {
        MessageRole::Assistant => "assistant"@,
        _ => "user"@,
    }
}

/// The text block that leads a message with tool calls, when it has text.
pub open spec fn lead_text(t: Seq<char>) -> Seq<BlockView> {
    if t.len() > 0 {
        seq![BlockView::Text(t)]
    } else {
        seq![]
    }
}

/// Tool calls as tool-use blocks.
pub open spec fn use_blocks(calls: Seq<ToolCallText>) -> Seq<BlockView> {
    calls.map_values(|c: ToolCallText| BlockView::ToolUse(tool_call_view(c)))
}

/// A message in the block protocol: none for the system's (it travels
/// apart); a message with tool calls as its text block, if it has text,
/// then one tool-use block per call; a tool's answer as a user message
/// with one tool-result block (an empty call identity when it names none);
/// any other as its text.
pub open spec fn anthropic_message_spec(m: ChatMessage) -> Option<AnthropicMessageView> {
    if m.role == MessageRole::System {
        None
    } else if m.tool_calls@.len() > 0 {
        Some(
            AnthropicMessageView {
                role: block_role(m.role),
                content: ContentView::Blocks(lead_text(m.content@) + use_blocks(m.tool_calls@)),
            },
        )
    } else if m.role == MessageRole::Tool {
        Some(
            AnthropicMessageView {
                role: "user"@,
                content: ContentView::Blocks(
                    seq![BlockView::ToolResult(or_text(opt_chars(m.tool_call_id), seq![]), m.content@)],
                ),
            },
        )
    } else {
        Some(AnthropicMessageView { role: block_role(m.role), content: ContentView::Text(m.content@) })
    }
}

impl AnthropicMessage {
    /// The message in the block protocol, as `anthropic_message_spec` says.
    pub fn from_core(msg: &ChatMessage) -> (r: Option<AnthropicMessage>)
        ensures
            opt_message_view(r) == anthropic_message_spec(*msg),
    {
        proof {
            reveal_strlit("user");
            reveal_strlit("assistant");
        }
        if msg.role == MessageRole::System {
            return None;
        }
        let role: &str = match msg.role {
            MessageRole::Assistant => "assistant",
            _ => "user",
        };
        if msg.tool_calls.len() > 0 {
            let mut blocks: Vec<ContentBlock> = Vec::new();
            if !msg.content.as_str().is_empty() {
                blocks.push(ContentBlock::Text(owned(msg.content.as_str())));
            }
            let ghost lead = blocks_view(blocks@);
            proof {
                assert(lead =~= lead_text(msg.content@));
            }
            let mut i: usize = 0;
            while i < msg.tool_calls.len()
                invariant
                    i <= msg.tool_calls@.len(),
                    lead == lead_text(msg.content@),
                    blocks_view(blocks@) == lead + use_blocks(msg.tool_calls@.take(i as int)),
                decreases msg.tool_calls@.len() - i,
            {
                let ghost before = blocks@;
                let b = ContentBlock::ToolUse(copy_call(&msg.tool_calls[i]));
                blocks.push(b);
                proof {
                    let cs = msg.tool_calls@;
                    assert(cs.take(i + 1) =~= cs.take(i as int).push(cs[i as int]));
                    assert(use_blocks(cs.take(i as int).push(cs[i as int])) =~= use_blocks(
                        cs.take(i as int),
                    ).push(BlockView::ToolUse(tool_call_view(cs[i as int]))));
                    assert(blocks_view(before.push(b)) =~= blocks_view(before).push(block_view(b)));
                    assert(blocks_view(blocks@) =~= lead + use_blocks(cs.take(i + 1)));
                }
                i = i + 1;
            }
            proof {
                assert(msg.tool_calls@.take(msg.tool_calls@.len() as int) =~= msg.tool_calls@);
            }
            return Some(AnthropicMessage { role: owned(role), content: MessageContent::Blocks(blocks) });
        }
        if msg.role == MessageRole::Tool {
            let id = match &msg.tool_call_id {
                Some(t) => owned(t.as_str()),
                None => String::new(),
            };
            let blocks = vec![ContentBlock::ToolResult(id, owned(msg.content.as_str()))];
            proof {
                assert(blocks_view(blocks@) =~= seq![
                    BlockView::ToolResult(or_text(opt_chars(msg.tool_call_id), seq![]), msg.content@),
                ]);
            }
            return Some(AnthropicMessage { role: owned("user"), content: MessageContent::Blocks(blocks) });
        }
        Some(AnthropicMessage { role: owned(role), content: MessageContent::Text(owned(msg.content.as_str())) })
    }
}

/// A tool in the block protocol: its name, its description and the schema
/// of its input, as JSON text.
pub struct AnthropicTool {
    pub name: String,
    pub description: Option<String>,
    pub input_schema: String,
}

/// Abstract value of a tool of either protocol.
pub struct ToolFormView {
    pub name: Seq<char>,
    pub description: Option<Seq<char>>,
    pub schema: Seq<char>,
}

/// The abstract value of a block-protocol tool.
pub open spec fn anthropic_tool_view(t: AnthropicTool) -> ToolFormView {
    ToolFormView { name: t.name@, description: opt_chars(t.description), schema: t.input_schema@ }
}

/// A tool definition in the block protocol: all three of its parts.
pub open spec fn anthropic_tool_spec(td: ToolDefinition) -> ToolFormView {
    ToolFormView { name: td.name@, description: Some(td.description@), schema: td.parameters@ }
}

impl AnthropicTool {
    /// The tool in the block protocol.
    pub fn from_core(td: &ToolDefinition) -> (r: AnthropicTool)
        ensures
            anthropic_tool_view(r) == anthropic_tool_spec(*td),
    {
        AnthropicTool {
            name: owned(td.name.as_str()),
            description: Some(owned(td.description.as_str())),
            input_schema: owned(td.parameters.as_str()),
        }
    }
}

/// A block-protocol request, but for its sampling temperature.
pub struct AnthropicRequest {
    pub model: String,
    pub system: Option<String>,
    pub messages: Vec<AnthropicMessage>,
    pub max_tokens: u32,
    pub tools: Vec<AnthropicTool>,
    pub stream: Option<bool>,
}

/// Abstract value of a block-protocol request.
pub struct AnthropicRequestView {
    pub model: Seq<char>,
    pub system: Option<Seq<char>>,
    pub messages: Seq<AnthropicMessageView>,
    pub max_tokens: u32,
    pub tools: Seq<ToolFormView>,
    pub stream: Option<bool>,
}

/// The abstract value of a block-protocol request.
pub open spec fn anthropic_request_view(r: AnthropicRequest) -> AnthropicRequestView {
    AnthropicRequestView {
        model: r.model@,
        system: opt_chars(r.system),
        messages: anthropic_messages_view(r.messages@),
        max_tokens: r.max_tokens,
        tools: r.tools@.map_values(|t: AnthropicTool| anthropic_tool_view(t)),
        stream: r.stream,
    }
}

/// The texts of the system's messages, in order.
pub open spec fn system_texts(ms: Seq<ChatMessage>) -> Seq<Seq<char>>
    decreases ms.len(),
{
    if ms.len() == 0 {
        seq![]
    } else if ms.last().role == MessageRole::System {
        system_texts(ms.drop_last()).push(ms.last().content@)
    } else {
        system_texts(ms.drop_last())
    }
}

/// The other messages in the block protocol, in order.
pub open spec fn block_messages(ms: Seq<ChatMessage>) -> Seq<AnthropicMessageView>
    decreases ms.len(),
{
    if ms.len() == 0 {
        seq![]
    } else {
        match anthropic_message_spec(ms.last()) {
            Some(m) => block_messages(ms.drop_last()).push(m),
            None => block_messages(ms.drop_last()),
        }
    }
}

/// In the block protocol every message of a conversation travels exactly
/// once: the system's as part of the system text, each other one as a
/// message.
pub proof fn law_every_message_travels_once(ms: Seq<ChatMessage>)
    ensures
        system_texts(ms).len() + block_messages(ms).len() == ms.len(),
    decreases ms.len(),
{
    if ms.len() > 0 {
        law_every_message_travels_once(ms.drop_last());
    }
}

/// A request in the block protocol: the system's messages joined by line
/// breaks into the system text (none when there are none), the others as
/// messages, a limit of 4096 tokens unless one is asked for, the tools, and
/// streaming marked only when asked for.
pub open spec fn anthropic_request_spec(r: ChatRequest) -> AnthropicRequestView {
    let parts = system_texts(r.messages@);
    AnthropicRequestView {
        model: r.model@,
        system: if parts.len() == 0 {
            None
        } else {
            Some(join_chars(parts, "\n"@))
        },
        messages: block_messages(r.messages@),
        max_tokens: match r.max_tokens {
            Some(n) => n,
            None => 4096,
        },
        tools: r.tools@.map_values(|t: ToolDefinition| anthropic_tool_spec(t)),
        stream: if r.stream {
            Some(true)
        } else {
            None
        },
    }
}

impl AnthropicRequest {
    /// The request in the block protocol, as `anthropic_request_spec` says.
    pub fn from_core(request: &ChatRequest) -> (r: AnthropicRequest)
        ensures
            anthropic_request_view(r) == anthropic_request_spec(*request),
    {
        let ghost ms = request.messages@;
        let mut system_parts: Vec<String> = Vec::new();
        let mut messages: Vec<AnthropicMessage> = Vec::new();
        let mut i: usize = 0;
        while i < request.messages.len()
            invariant
                i <= ms.len(),
                ms == request.messages@,
                strings_chars(system_parts@) == system_texts(ms.take(i as int)),
                anthropic_messages_view(messages@) == block_messages(ms.take(i as int)),
            decreases ms.len() - i,
        {
            let msg = &request.messages[i];
            proof {
                assert(ms.take(i + 1).drop_last() =~= ms.take(i as int));
                assert(ms.take(i + 1).last() == ms[i as int]);
            }
            if msg.role == MessageRole::System {
                system_parts.push(owned(msg.content.as_str()));
                proof {
                    assert(strings_chars(system_parts@) =~= system_texts(ms.take(i as int)).push(
                        ms[i as int].content@,
                    ));
                    assert(anthropic_messages_view(messages@) == block_messages(ms.take(i + 1)));
                }
            } else {
                let am = AnthropicMessage::from_core(msg);
                match am {
                    Some(m) => {
                        messages.push(m);
                        proof {
                            assert(anthropic_messages_view(messages@) =~= block_messages(
                                ms.take(i as int),
                            ).push(anthropic_message_spec(ms[i as int]).unwrap()));
                        }
                    },
                    None => {},
                }
                proof {
                    assert(strings_chars(system_parts@) == system_texts(ms.take(i + 1)));
                }
            }
            i = i + 1;
        }
        proof {
            assert(ms.take(ms.len() as int) =~= ms);
        }
        let system = if system_parts.len() == 0 {
            None
        } else {
            Some(join_with(&system_parts, "\n"))
        };
        let mut tools: Vec<AnthropicTool> = Vec::new();
        let mut k: usize = 0;
        while k < request.tools.len()
            invariant
                k <= request.tools@.len(),
                tools@.map_values(|t: AnthropicTool| anthropic_tool_view(t)) == request.tools@.take(
                    k as int,
                ).map_values(|t: ToolDefinition| anthropic_tool_spec(t)),
            decreases request.tools@.len() - k,
        {
            let ghost before = tools@;
            let t = AnthropicTool::from_core(&request.tools[k]);
            tools.push(t);
            proof {
                let ts = request.tools@;
                assert(ts.take(k + 1) =~= ts.take(k as int).push(ts[k as int]));
                assert(ts.take(k as int).push(ts[k as int]).map_values(
                    |t: ToolDefinition| anthropic_tool_spec(t),
                ) =~= ts.take(k as int).map_values(|t: ToolDefinition| anthropic_tool_spec(t)).push(
                    anthropic_tool_spec(ts[k as int]),
                ));
                assert(before.push(t).map_values(|t: AnthropicTool| anthropic_tool_view(t))
                    =~= before.map_values(|t: AnthropicTool| anthropic_tool_view(t)).push(
                    anthropic_tool_view(t),
                ));
            }
            k = k + 1;
        }
        proof {
            assert(request.tools@.take(request.tools@.len() as int) =~= request.tools@);
        }
        let max_tokens = match request.max_tokens {
            Some(n) => n,
            None => 4096,
        };
        let stream = if request.stream {
            Some(true)
        } else {
            None
        };
        AnthropicRequest {
            model: owned(request.model.as_str()),
            system,
            messages,
            max_tokens,
            tools,
            stream,
        }
    }
}

/// The token counts of a block-protocol answer.
pub struct AnthropicUsage {
    pub input_tokens: u32,
    pub output_tokens: u32,
}

/// A block-protocol answer: its id, its blocks, the model, why it stopped
/// and its token counts.
pub struct AnthropicResponse {
    pub id: String,
    pub content: Vec<ContentBlock>,
    pub model: String,
    pub stop_reason: Option<String>,
    pub usage: AnthropicUsage,
}

/// The text of the text blocks, run together.
pub open spec fn blocks_text(bs: Seq<BlockView>) -> Seq<char>
    decreases bs.len(),
{
    if bs.len() == 0 {
        seq![]
    } else {
        blocks_text(bs.drop_last()) + match bs.last() {
            BlockView::Text(t) => t,
            _ => seq![],
        }
    }
}

/// The tool calls of the tool-use blocks, in order.
pub open spec fn blocks_calls(bs: Seq<BlockView>) -> Seq<ToolCallView>
    decreases bs.len(),
{
    if bs.len() == 0 {
        seq![]
    } else {
        match bs.last() {
            BlockView::ToolUse(c) => blocks_calls(bs.drop_last()).push(c),
            _ => blocks_calls(bs.drop_last()),
        }
    }
}

/// A block-protocol answer as a reply: the text of its text blocks, the
/// calls of its tool-use blocks (tool results are left out), its token
/// counts with their sum, and the finish reason its stop reason stands for.
pub open spec fn anthropic_completion_spec(r: AnthropicResponse, chat_id: u128) -> CompletionView {
    CompletionView {
        id: r.id@,
        chat_id,
        content: blocks_text(blocks_view(r.content@)),
        tool_calls: blocks_calls(blocks_view(r.content@)),
        usage: TokenUsage {
            prompt_tokens: r.usage.input_tokens,
            completion_tokens: r.usage.output_tokens,
            total_tokens: (r.usage.input_tokens + r.usage.output_tokens) as u32,
        },
        model: r.model@,
        finish_reason: stop_reason_spec(opt_chars(r.stop_reason)),
    }
}

impl AnthropicResponse {
    /// The answer as a reply, as `anthropic_completion_spec` says.
    pub fn into_core(self, chat_id: u128) -> (r: ChatCompletion)
        requires
            self.usage.input_tokens + self.usage.output_tokens <= u32::MAX,
        ensures
            completion_view(r) == anthropic_completion_spec(self, chat_id),
    {
        let ghost bs = blocks_view(self.content@);
        let mut text = String::new();
        let mut calls: Vec<ToolCallText> = Vec::new();
        let mut i: usize = 0;
        proof {
            assert(bs.take(0) =~= Seq::<BlockView>::empty());
        }
        while i < self.content.len()
            invariant
                i <= self.content@.len(),
                bs == blocks_view(self.content@),
                text@ == blocks_text(bs.take(i as int)),
                tool_calls_view(calls@) == blocks_calls(bs.take(i as int)),
            decreases self.content@.len() - i,
        {
            proof {
                assert(bs.take(i + 1).drop_last() =~= bs.take(i as int));
                assert(bs.take(i + 1).last() == block_view(self.content@[i as int]));
            }
            match &self.content[i] {
                ContentBlock::Text(t) => {
                    push_str(&mut text, t.as_str());
                    proof {
                        assert(tool_calls_view(calls@) == blocks_calls(bs.take(i + 1)));
                    }
                },
                ContentBlock::ToolUse(c) => {
                    calls.push(copy_call(c));
                    proof {
                        assert(text@ =~= blocks_text(bs.take(i + 1)));
                        assert(tool_calls_view(calls@) =~= blocks_calls(bs.take(i as int)).push(
                            tool_call_view(*c),
                        ));
                    }
                },
                ContentBlock::ToolResult(_, _) => {
                    proof {
                        assert(text@ =~= blocks_text(bs.take(i + 1)));
                    }
                },
            }
            i = i + 1;
        }
        proof {
            assert(bs.take(bs.len() as int) =~= bs);
        }
        let finish_reason = match &self.stop_reason {
            Some(s) => parse_stop_reason(Some(s.as_str())),
            None => parse_stop_reason(None),
        };
        let input = self.usage.input_tokens;
        let output = self.usage.output_tokens;
        ChatCompletion {
            id: self.id,
            chat_id,
            content: text,
            tool_calls: calls,
            usage: TokenUsage {
                prompt_tokens: input,
                completion_tokens: output,
                total_tokens: input + output,
            },
            model: self.model,
            finish_reason,
        }
    }
}

// ── the completions protocol ────────────────────────────────────────────────

/// A message of the completions protocol: its role, its text, its tool
/// calls (arguments as JSON text) and, for a tool's answer, the call it
/// answers.
pub struct OpenAiMessage {
    pub role: String,
    pub content: Option<String>,
    pub tool_calls: Vec<ToolCallText>,
    pub tool_call_id: Option<String>,
}

/// Abstract value of a completions-protocol message.
pub struct OpenAiMessageView {
    pub role: Seq<char>,
    pub content: Option<Seq<char>>,
    pub tool_calls: Seq<ToolCallView>,
    pub tool_call_id: Option<Seq<char>>,
}

/// The abstract value of a completions-protocol message.
pub open spec fn openai_message_view(m: OpenAiMessage) -> OpenAiMessageView {
    OpenAiMessageView {
        role: m.role@,
        content: opt_chars(m.content),
        tool_calls: tool_calls_view(m.tool_calls@),
        tool_call_id: opt_chars(m.tool_call_id),
    }
}

/// The completions-protocol name of a role.
pub open spec fn openai_role(role: MessageRole) -> Seq<char> {
    match role {
        MessageRole::User => "user"@,
        MessageRole::Assistant => "assistant"@,
        MessageRole::System => "system"@,
        MessageRole::Tool => "tool"@,
    }
}

/// A message in the completions protocol: its role's name, its text, its
/// tool calls, and the call it answers when it is a tool's.
pub open spec fn openai_message_spec(m: ChatMessage) -> OpenAiMessageView {
    OpenAiMessageView {
        role: openai_role(m.role),
        content: Some(m.content@),
        tool_calls: tool_calls_view(m.tool_calls@),
        tool_call_id: if m.role == MessageRole::Tool {
            opt_chars(m.tool_call_id)
        } else {
            None
        },
    }
}

impl OpenAiMessage {
    /// The message in the completions protocol.
    pub fn from_core(msg: &ChatMessage) -> (r: OpenAiMessage)
        ensures
            openai_message_view(r) == openai_message_spec(*msg),
    {
        proof {
            reveal_strlit("user");
            reveal_strlit("assistant");
            reveal_strlit("system");
            reveal_strlit("tool");
        }
        let role: &str = match msg.role {
            MessageRole::User => "user",
            MessageRole::Assistant => "assistant",
            MessageRole::System => "system",
            MessageRole::Tool => "tool",
        };
        let tool_call_id = if msg.role == MessageRole::Tool {
            copy_opt(&msg.tool_call_id)
        } else {
            None
        };
        OpenAiMessage {
            role: owned(role),
            content: Some(owned(msg.content.as_str())),
            tool_calls: copy_calls(&msg.tool_calls),
            tool_call_id,
        }
    }
}

/// A tool in the completions protocol: its name, description and the
/// schema of its parameters, as JSON text.
pub struct OpenAiTool {
    pub name: String,
    pub description: String,
    pub parameters: String,
}

/// The abstract value of a completions-protocol tool.
pub open spec fn openai_tool_view(t: OpenAiTool) -> ToolFormView {
    ToolFormView { name: t.name@, description: Some(t.description@), schema: t.parameters@ }
}

impl OpenAiTool {
    /// The tool in the completions protocol.
    pub fn from_core(td: &ToolDefinition) -> (r: OpenAiTool)
        ensures
            openai_tool_view(r) == anthropic_tool_spec(*td),
    {
        OpenAiTool {
            name: owned(td.name.as_str()),
            description: owned(td.description.as_str()),
            parameters: owned(td.parameters.as_str()),
        }
    }
}

/// A completions-protocol request, but for its sampling temperature.
pub struct OpenAiRequest {
    pub model: String,
    pub messages: Vec<OpenAiMessage>,
    pub stream: Option<bool>,
    pub max_tokens: Option<u32>,
    pub tools: Vec<OpenAiTool>,
}

/// Abstract value of a completions-protocol request.
pub struct OpenAiRequestView {
    pub model: Seq<char>,
    pub messages: Seq<OpenAiMessageView>,
    pub stream: Option<bool>,
    pub max_tokens: Option<u32>,
    pub tools: Seq<ToolFormView>,
}

/// The abstract value of a completions-protocol request.
pub open spec fn openai_request_view(r: OpenAiRequest) -> OpenAiRequestView {
    OpenAiRequestView {
        model: r.model@,
        messages: r.messages@.map_values(|m: OpenAiMessage| openai_message_view(m)),
        stream: r.stream,
        max_tokens: r.max_tokens,
        tools: r.tools@.map_values(|t: OpenAiTool| openai_tool_view(t)),
    }
}

/// A request in the completions protocol: every message in order, the
/// token limit as asked, the tools, and streaming marked only when asked
/// for.
pub open spec fn openai_request_spec(r: ChatRequest) -> OpenAiRequestView {
    OpenAiRequestView {
        model: r.model@,
        messages: r.messages@.map_values(|m: ChatMessage| openai_message_spec(m)),
        stream: if r.stream {
            Some(true)
        } else {
            None
        },
        max_tokens: r.max_tokens,
        tools: r.tools@.map_values(|t: ToolDefinition| anthropic_tool_spec(t)),
    }
}

impl OpenAiRequest {
    /// The request in the completions protocol, as `openai_request_spec`
    /// says.
    pub fn from_core(request: &ChatRequest) -> (r: OpenAiRequest)
        ensures
            openai_request_view(r) == openai_request_spec(*request),
    {
        let mut messages: Vec<OpenAiMessage> = Vec::new();
        let mut i: usize = 0;
        while i < request.messages.len()
            invariant
                i <= request.messages@.len(),
                messages@.map_values(|m: OpenAiMessage| openai_message_view(m))
                    == request.messages@.take(i as int).map_values(
                    |m: ChatMessage| openai_message_spec(m),
                ),
            decreases request.messages@.len() - i,
        {
            let ghost before = messages@;
            let m = OpenAiMessage::from_core(&request.messages[i]);
            messages.push(m);
            proof {
                let ms = request.messages@;
                assert(ms.take(i + 1) =~= ms.take(i as int).push(ms[i as int]));
                assert(ms.take(i as int).push(ms[i as int]).map_values(
                    |m: ChatMessage| openai_message_spec(m),
                ) =~= ms.take(i as int).map_values(|m: ChatMessage| openai_message_spec(m)).push(
                    openai_message_spec(ms[i as int]),
                ));
                assert(before.push(m).map_values(|m: OpenAiMessage| openai_message_view(m))
                    =~= before.map_values(|m: OpenAiMessage| openai_message_view(m)).push(
                    openai_message_view(m),
                ));
            }
            i = i + 1;
        }
        proof {
            assert(request.messages@.take(request.messages@.len() as int) =~= request.messages@);
        }
        let mut tools: Vec<OpenAiTool> = Vec::new();
        let mut k: usize = 0;
        while k < request.tools.len()
            invariant
                k <= request.tools@.len(),
                tools@.map_values(|t: OpenAiTool| openai_tool_view(t)) == request.tools@.take(
                    k as int,
                ).map_values(|t: ToolDefinition| anthropic_tool_spec(t)),
            decreases request.tools@.len() - k,
        {
            let ghost before = tools@;
            let t = OpenAiTool::from_core(&request.tools[k]);
            tools.push(t);
            proof {
                let ts = request.tools@;
                assert(ts.take(k + 1) =~= ts.take(k as int).push(ts[k as int]));
                assert(ts.take(k as int).push(ts[k as int]).map_values(
                    |t: ToolDefinition| anthropic_tool_spec(t),
                ) =~= ts.take(k as int).map_values(|t: ToolDefinition| anthropic_tool_spec(t)).push(
                    anthropic_tool_spec(ts[k as int]),
                ));
                assert(before.push(t).map_values(|t: OpenAiTool| openai_tool_view(t))
                    =~= before.map_values(|t: OpenAiTool| openai_tool_view(t)).push(
                    openai_tool_view(t),
                ));
            }
            k = k + 1;
        }
        proof {
            assert(request.tools@.take(request.tools@.len() as int) =~= request.tools@);
        }
        let stream = if request.stream {
            Some(true)
        } else {
            None
        };
        OpenAiRequest {
            model: owned(request.model.as_str()),
            messages,
            stream,
            max_tokens: request.max_tokens,
            tools,
        }
    }
}

/// One choice of a completions-protocol answer.
pub struct OpenAiChoice {
    pub index: u32,
    pub message: OpenAiMessage,
    pub finish_reason: Option<String>,
}

/// The token counts of a completions-protocol answer.
pub struct OpenAiUsage {
    pub prompt_tokens: u32,
    pub completion_tokens: u32,
    pub total_tokens: u32,
}

/// A completions-protocol answer: its id, the model, its choices and its
/// token counts.
pub struct OpenAiResponse {
    pub id: String,
    pub model: String,
    pub choices: Vec<OpenAiChoice>,
    pub usage: OpenAiUsage,
}

/// A completions-protocol answer as a reply, from its first choice: that
/// message's text (empty when absent) and tool calls, the token counts as
/// given, and the finish reason its reason stands for.
pub open spec fn openai_completion_spec(r: OpenAiResponse, chat_id: u128) -> CompletionView {
    let c = r.choices@[0];
    CompletionView {
        id: r.id@,
        chat_id,
        content: or_text(opt_chars(c.message.content), seq![]),
        tool_calls: tool_calls_view(c.message.tool_calls@),
        usage: TokenUsage {
            prompt_tokens: r.usage.prompt_tokens,
            completion_tokens: r.usage.completion_tokens,
            total_tokens: r.usage.total_tokens,
        },
        model: r.model@,
        finish_reason: finish_reason_spec(opt_chars(c.finish_reason)),
    }
}

impl OpenAiResponse {
    /// The answer as a reply, as `openai_completion_spec` says; an answer
    /// has at least one choice.
    pub fn into_core(self, chat_id: u128) -> (r: ChatCompletion)
        requires
            self.choices@.len() > 0,
        ensures
            completion_view(r) == openai_completion_spec(self, chat_id),
    {
        let mut choices = self.choices;
        let choice = choices.remove(0);
        let finish_reason = match &choice.finish_reason {
            Some(s) => parse_finish_reason(Some(s.as_str())),
            None => parse_finish_reason(None),
        };
        let content = match choice.message.content {
            Some(t) => t,
            None => String::new(),
        };
        ChatCompletion {
            id: self.id,
            chat_id,
            content,
            tool_calls: choice.message.tool_calls,
            usage: TokenUsage {
                prompt_tokens: self.usage.prompt_tokens,
                completion_tokens: self.usage.completion_tokens,
                total_tokens: self.usage.total_tokens,
            },
            model: self.model,
            finish_reason,
        }
    }
}

} // verus!
