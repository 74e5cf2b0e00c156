//! Conversation export as Markdown.
use vstd::prelude::*;
use vstd::string::*;
use crate::paths::{decimal, decimal_string};

verus! {

/// Export file format.
#[derive(Debug, Clone, Copy, PartialEq, Eq, Structural)]
pub enum ExportFormat {
    Markdown,
    Json,
}

/// What an export includes.
#[derive(Debug, Clone, Copy, PartialEq, Eq, Structural)]
pub struct ExportOptions {
    pub format: ExportFormat,
    pub include_metadata: bool,
    pub include_tool_calls: bool,
    pub include_artifacts: bool,
}

impl Default for ExportOptions {
    fn default() -> (r: Self)
        ensures
            r == (ExportOptions {
                format: ExportFormat::Markdown,
                include_metadata: false,
                include_tool_calls: false,
                include_artifacts: false,
            }),
    {
        ExportOptions {
            format: ExportFormat::Markdown,
            include_metadata: false,
            include_tool_calls: false,
            include_artifacts: false,
        }
    }
}

/// Who wrote a message.
#[derive(Debug, Clone, Copy, PartialEq, Eq, Structural)]
pub enum MessageRole {
    User,
    Assistant,
    System,
    Tool,
}

/// The heading label of a role.
pub open spec fn role_name(role: MessageRole) -> Seq<char> {
    match role {
        MessageRole::User => "User"@,
        MessageRole::Assistant => "Assistant"@,
        MessageRole::System => "System"@,
        MessageRole::Tool => "Tool"@,
    }
}

/// The heading label of a role.
pub fn role_label(role: MessageRole) -> (r: &'static str)
    ensures
        r@ == role_name(role),
{
    match role {
        MessageRole::User => "User",
        MessageRole::Assistant => "Assistant",
        MessageRole::System => "System",
        MessageRole::Tool => "Tool",
    }
}

/// The chat fields an export shows.
pub struct ExportChat {
    pub title: String,
    pub model: String,
    pub created_at: String,
}

/// A message as an export shows it: its role, its RFC 3339 timestamp, its
/// text, and, already rendered as JSON, its tool calls and artifacts (none
/// when empty) and its metadata (none when null).
pub struct ExportMessage {
    pub role: MessageRole,
    pub timestamp: String,
    pub content: String,
    pub tool_calls_json: Option<String>,
    pub artifacts_json: Option<String>,
    pub metadata_json: Option<String>,
}

/// A fenced JSON block.
pub open spec fn json_block(j: Seq<char>) -> Seq<char> {
    "```json\n"@ + j + "\n```\n\n"@
}

/// The Markdown of one message.
pub open spec fn message_markdown(m: ExportMessage, o: ExportOptions) -> Seq<char> {
    "**"@ + role_name(m.role) + "** _"@ + m.timestamp@ + "_\n\n"@ + m.content@ + "\n\n"@
        + message_extras(m, o) + "---\n\n"@
}

/// The Markdown of messages `k..`.
pub open spec fn messages_markdown(ms: Seq<ExportMessage>, o: ExportOptions, k: int) -> Seq<char>
    decreases ms.len() - k,
{
    if k < 0 || k >= ms.len() {
        seq![]
    } else {
        message_markdown(ms[k], o) + messages_markdown(ms, o, k + 1)
    }
}

/// The Markdown export of a chat.
pub open spec fn chat_markdown(c: ExportChat, ms: Seq<ExportMessage>, o: ExportOptions) -> Seq<char> {
    "# "@ + c.title@ + "\n\n"@ + "**Model**: "@ + c.model@ + "\n"@ + "**Created**: "@
        + c.created_at@ + "\n\n"@ + "## Messages\n\n"@ + messages_markdown(ms, o, 0)
}

/// Appends a fenced JSON block.
fn push_json_block(out: &mut String, j: &str)
    ensures
        final(out)@ == old(out)@ + json_block(j@),
{
    proof {
        reveal_strlit("```json\n");
        reveal_strlit("\n```\n\n");
    }
    out.append("```json\n");
    out.append(j);
    out.append("\n```\n\n");
}

/// The optional parts of a message.
pub open spec fn message_extras(m: ExportMessage, o: ExportOptions) -> Seq<char> {
    (match m.tool_calls_json {
        Some(j) if o.include_tool_calls => json_block(j@),
        _ => seq![],
    }) + (match m.artifacts_json {
        Some(j) if o.include_artifacts => json_block(j@),
        _ => seq![],
    }) + (match m.metadata_json {
        Some(j) if o.include_metadata => "<!-- metadata: "@ + j@ + " -->\n\n"@,
        _ => seq![],
    })
}

/// Appends the optional parts of a message.
fn push_extras(out: &mut String, m: &ExportMessage, options: &ExportOptions)
    ensures
        final(out)@ == old(out)@ + message_extras(*m, *options),
{
    proof {
        reveal_strlit("<!-- metadata: ");
        reveal_strlit(" -->\n\n");
    }
    let ghost s0 = out@;
    if options.include_tool_calls {
        if let Some(j) = &m.tool_calls_json {
            push_json_block(out, j.as_str());
        }
    }
    let ghost s1 = out@;
    if options.include_artifacts {
        if let Some(j) = &m.artifacts_json {
            push_json_block(out, j.as_str());
        }
    }
    let ghost s2 = out@;
    if options.include_metadata {
        if let Some(j) = &m.metadata_json {
            out.append("<!-- metadata: ");
            out.append(j.as_str());
            out.append(" -->\n\n");
        }
    }
    proof {
        assert(out@ =~= s0 + message_extras(*m, *options));
    }
}

/// Appends the Markdown of one message.
fn push_message(out: &mut String, m: &ExportMessage, options: &ExportOptions)
    ensures
        final(out)@ == old(out)@ + message_markdown(*m, *options),
{
    proof {
        reveal_strlit("**");
        reveal_strlit("** _");
        reveal_strlit("_\n\n");
        reveal_strlit("\n\n");
        reveal_strlit("---\n\n");
    }
    let ghost s0 = out@;
    out.append("**");
    out.append(role_label(m.role));
    out.append("** _");
    out.append(m.timestamp.as_str());
    out.append("_\n\n");
    out.append(m.content.as_str());
    out.append("\n\n");
    let ghost s1 = out@;
    push_extras(out, m, options);
    out.append("---\n\n");
    proof {
        assert(message_markdown(*m, *options) =~= (s1.subrange(s0.len() as int, s1.len() as int))
            + message_extras(*m, *options) + "---\n\n"@);
        assert(out@ =~= s0 + message_markdown(*m, *options));
    }
}

/// Renders a chat as Markdown: title, model and creation time, then each
/// message with its role and time, its text, and, as the options ask,
/// its tool calls, artifacts and metadata, each message closed by a rule.
pub fn render_markdown(chat: &ExportChat, messages: &Vec<ExportMessage>, options: &ExportOptions) -> (r:
    String)
    ensures
        r@ == chat_markdown(*chat, messages@, *options),
{
    proof {
        reveal_strlit("# ");
        reveal_strlit("\n\n");
        reveal_strlit("**Model**: ");
        reveal_strlit("\n");
        reveal_strlit("**Created**: ");
        reveal_strlit("## Messages\n\n");
    }
    let mut out = String::from_str("# ");
    out.append(chat.title.as_str());
    out.append("\n\n");
    out.append("**Model**: ");
    out.append(chat.model.as_str());
    out.append("\n");
    out.append("**Created**: ");
    out.append(chat.created_at.as_str());
    out.append("\n\n");
    out.append("## Messages\n\n");
    let ghost head = out@;
    let mut k: usize = 0;
    while k < messages.len()
        invariant
            k <= messages@.len(),
            head + messages_markdown(messages@, *options, 0) == out@ + messages_markdown(
                messages@,
                *options,
                k as int,
            ),
        decreases messages@.len() - k,
    {
        let ghost before = out@;
        push_message(&mut out, &messages[k], options);
        proof {
            assert(out@ + messages_markdown(messages@, *options, k + 1) =~= before
                + messages_markdown(messages@, *options, k as int));
        }
        k = k + 1;
    }
    proof {
        assert(out@ =~= chat_markdown(*chat, messages@, *options));
    }
    out
}

/// A search hit as an export shows it: the chat's title, the score already
/// written with four decimals, and the message's role and text.
pub struct ExportHit {
    pub chat_title: String,
    pub score: String,
    pub role: MessageRole,
    pub content: String,
}

/// The Markdown of the `n`-th hit.
pub open spec fn hit_markdown(h: ExportHit, n: nat) -> Seq<char> {
    "## Result "@ + decimal(n) + "\n\n"@ + "**Chat**: "@ + h.chat_title@ + "\n\n"@ + "**Score**: "@
        + h.score@ + "\n\n"@ + "**"@ + role_name(h.role) + "**: "@ + h.content@ + "\n\n"@
        + "---\n\n"@
}

/// The Markdown of hits `k..`, numbered from `k + 1`.
pub open spec fn hits_markdown(hs: Seq<ExportHit>, k: int) -> Seq<char>
    decreases hs.len() - k,
{
    if k < 0 || k >= hs.len() {
        seq![]
    } else {
        hit_markdown(hs[k], (k + 1) as nat) + hits_markdown(hs, k + 1)
    }
}

/// The Markdown export of search hits.
pub open spec fn search_markdown(hs: Seq<ExportHit>) -> Seq<char> {
    "# Search Results\n\n"@ + hits_markdown(hs, 0)
}

/// Renders search hits as Markdown: a heading, then each hit numbered from
/// 1 with its chat, score, role and text, each closed by a rule.
pub fn render_search_markdown(hits: &Vec<ExportHit>) -> (r: String)
    ensures
        r@ == search_markdown(hits@),
{
    proof {
        reveal_strlit("# Search Results\n\n");
        reveal_strlit("## Result ");
        reveal_strlit("\n\n");
        reveal_strlit("**Chat**: ");
        reveal_strlit("**Score**: ");
        reveal_strlit("**");
        reveal_strlit("**: ");
        reveal_strlit("---\n\n");
    }
    let mut out = String::from_str("# Search Results\n\n");
    let ghost head = out@;
    let mut k: usize = 0;
    while k < hits.len()
        invariant
            k <= hits@.len(),
            head == "# Search Results\n\n"@,
            head + hits_markdown(hits@, 0) == out@ + hits_markdown(hits@, k as int),
        decreases hits@.len() - k,
    {
        let ghost before = out@;
        let h = &hits[k];
        let n = decimal_string(k + 1);
        out.append("## Result ");
        out.append(n.as_str());
        out.append("\n\n");
        out.append("**Chat**: ");
        out.append(h.chat_title.as_str());
        out.append("\n\n");
        out.append("**Score**: ");
        out.append(h.score.as_str());
        out.append("\n\n");
        out.append("**");
        out.append(role_label(h.role));
        out.append("**: ");
        out.append(h.content.as_str());
        out.append("\n\n");
        out.append("---\n\n");
        proof {
            assert(out@ =~= before + hit_markdown(hits@[k as int], (k + 1) as nat));
            assert(out@ + hits_markdown(hits@, k + 1) =~= before + hits_markdown(hits@, k as int));
        }
        k = k + 1;
    }
    proof {
        assert(out@ =~= search_markdown(hits@));
    }
    out
}

} // verus!
