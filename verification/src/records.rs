//! Stored records (chats, token usage, bookmarks, prompt templates): the
//! columns of a row decoded into a record, with the identifiers checked as
//! UUIDs.
use vstd::prelude::*;
use vstd::string::*;
use crate::export::MessageRole;
use crate::text::str_eq;

verus! {

/// What `uuid::Uuid::parse_str` gives for `text`: the UUID's 128-bit value,
/// or the text of its error.
pub uninterp spec fn uuid_parse(text: Seq<char>) -> Result<u128, Seq<char>>;

/// `uuid::Uuid::parse_str(text)`, as the UUID's value or the error's text.
#[verifier::external_body]
fn parse_uuid(text: &str) -> (r: Result<u128, String>)
    ensures
        match r {
            Ok(v) => uuid_parse(text@) == Ok::<u128, Seq<char>>(v),
            Err(m) => uuid_parse(text@) == Err::<u128, Seq<char>>(m@),
        },
{
    match uuid::Uuid::parse_str(text) {
        Ok(u) => Ok(u.as_u128()),
        Err(e) => Err(e.to_string()),
    }
}

/// The columns of a stored chat, as read.
#[derive(Debug)]
pub struct ChatRow {
    pub id: String,
    pub title: String,
    pub workspace_id: Option<String>,
    pub persona_id: Option<String>,
    pub agent_role_id: Option<String>,
    pub model: String,
    pub created_at: String,
    pub updated_at: String,
    pub pinned: i64,
    pub last_read_message_id: Option<String>,
}

/// A stored chat.
#[derive(Debug)]
pub struct ChatRecord {
    pub id: u128,
    pub title: String,
    pub workspace_id: Option<u128>,
    pub persona_id: Option<u128>,
    pub agent_role_id: Option<u128>,
    pub model: String,
    pub created_at: String,
    pub updated_at: String,
    pub pinned: bool,
    pub last_read_message_id: Option<u128>,
}

/// Abstract value of a chat record.
pub struct ChatRecordView {
    pub id: u128,
    pub title: Seq<char>,
    pub workspace_id: Option<u128>,
    pub persona_id: Option<u128>,
    pub agent_role_id: Option<u128>,
    pub model: Seq<char>,
    pub created_at: Seq<char>,
    pub updated_at: Seq<char>,
    pub pinned: bool,
    pub last_read_message_id: Option<u128>,
}

/// The abstract value of a chat record.
pub open spec fn record_view(r: ChatRecord) -> ChatRecordView {
    ChatRecordView {
        id: r.id,
        title: r.title@,
        workspace_id: r.workspace_id,
        persona_id: r.persona_id,
        agent_role_id: r.agent_role_id,
        model: r.model@,
        created_at: r.created_at@,
        updated_at: r.updated_at@,
        pinned: r.pinned,
        last_read_message_id: r.last_read_message_id,
    }
}

/// The characters of an optional string.
pub open spec fn opt_chars(s: Option<String>) -> Option<Seq<char>> {
    match s {
        Some(t) => Some(t@),
        None => None,
    }
}

/// An optional identifier column: absent stays absent, present must be a
/// UUID; the error names the column and quotes the text.
pub open spec fn optional_id(col: Seq<char>, s: Option<Seq<char>>) -> Result<Option<u128>, Seq<char>> {
    match s {
        None => Ok(None),
        Some(t) => match uuid_parse(t) {
            Ok(v) => Ok(Some(v)),
            Err(e) => Err("invalid "@ + col + " '"@ + t + "': "@ + e),
        },
    }
}

/// The record a chat row decodes to, or the error for the first column
/// (in the order id, workspace, persona, agent role, last read message)
/// that does not hold a UUID.
pub open spec fn decode_spec(row: ChatRow) -> Result<ChatRecordView, Seq<char>> {
    match uuid_parse(row.id@) {
        Err(e) => Err("invalid chat id '"@ + row.id@ + "': "@ + e),
        Ok(id) => match optional_id("workspace_id"@, opt_chars(row.workspace_id)) {
            Err(m) => Err(m),
            Ok(ws) => match optional_id("persona_id"@, opt_chars(row.persona_id)) {
                Err(m) => Err(m),
                Ok(pid) => match optional_id("agent_role_id"@, opt_chars(row.agent_role_id)) {
                    Err(m) => Err(m),
                    Ok(arid) => match optional_id(
                        "last_read_message_id"@,
                        opt_chars(row.last_read_message_id),
                    ) {
                        Err(m) => Err(m),
                        Ok(lr) => Ok(
                            ChatRecordView {
                                id,
                                title: row.title@,
                                workspace_id: ws,
                                persona_id: pid,
                                agent_role_id: arid,
                                model: row.model@,
                                created_at: row.created_at@,
                                updated_at: row.updated_at@,
                                pinned: row.pinned != 0,
                                last_read_message_id: lr,
                            },
                        ),
                    },
                },
            },
        },
    }
}

/// Abstract value of a decoding result.
pub open spec fn decoded_view(r: Result<ChatRecord, String>) -> Result<ChatRecordView, Seq<char>> {
    match r {
        Ok(rec) => Ok(record_view(rec)),
        Err(m) => Err(m@),
    }
}

/// `"invalid <col> '<text>': <error>"`.
fn invalid(col: &str, text: &str, e: String) -> (r: String)
    ensures
        r@ == "invalid "@ + col@ + " '"@ + text@ + "': "@ + e@,
{
    proof {
        reveal_strlit("invalid ");
        reveal_strlit(" '");
        reveal_strlit("': ");
    }
    let mut m = String::from_str("invalid ");
    m.append(col);
    m.append(" '");
    m.append(text);
    m.append("': ");
    m.append(e.as_str());
    m
}

/// An optional identifier column decoded.
fn decode_optional_id(col: &str, s: &Option<String>) -> (r: Result<Option<u128>, String>)
    ensures
        match r {
            Ok(v) => optional_id(col@, opt_chars(*s)) == Ok::<Option<u128>, Seq<char>>(v),
            Err(m) => optional_id(col@, opt_chars(*s)) == Err::<Option<u128>, Seq<char>>(m@),
        },
{
    match s {
        None => Ok(None),
        Some(t) => match parse_uuid(t.as_str()) {
            Ok(v) => Ok(Some(v)),
            Err(e) => Err(invalid(col, t.as_str(), e)),
        },
    }
}

/// Decodes a chat row: the identifiers must be UUIDs (the first that is
/// not is reported), `pinned` is any nonzero number, the text columns are
/// kept as they are.
pub fn decode_chat_row(row: ChatRow) -> (r: Result<ChatRecord, String>)
    ensures
        decoded_view(r) == decode_spec(row),
{
    proof {
        reveal_strlit("chat id");
        reveal_strlit("workspace_id");
        reveal_strlit("persona_id");
        reveal_strlit("agent_role_id");
        reveal_strlit("last_read_message_id");
        reveal_strlit("invalid ");
        reveal_strlit(" '");
        reveal_strlit("': ");
        reveal_strlit("invalid chat id '");
        assert("invalid chat id '"@ =~= "invalid "@ + "chat id"@ + " '"@);
    }
    let id = match parse_uuid(row.id.as_str()) {
        Ok(v) => v,
        Err(e) => {
            let m = invalid("chat id", row.id.as_str(), e);
            proof {
                assert(m@ =~= "invalid chat id '"@ + row.id@ + "': "@ + e@);
            }
            return Err(m);
        },
    };
    let workspace_id = match decode_optional_id("workspace_id", &row.workspace_id) {
        Ok(v) => v,
        Err(m) => {
            return Err(m);
        },
    };
    let persona_id = match decode_optional_id("persona_id", &row.persona_id) {
        Ok(v) => v,
        Err(m) => {
            return Err(m);
        },
    };
    let agent_role_id = match decode_optional_id("agent_role_id", &row.agent_role_id) {
        Ok(v) => v,
        Err(m) => {
            return Err(m);
        },
    };
    let last_read_message_id = match decode_optional_id(
        "last_read_message_id",
        &row.last_read_message_id,
    ) {
        Ok(v) => v,
        Err(m) => {
            return Err(m);
        },
    };
    Ok(
        ChatRecord {
            id,
            title: row.title,
            workspace_id,
            persona_id,
            agent_role_id,
            model: row.model,
            created_at: row.created_at,
            updated_at: row.updated_at,
            pinned: row.pinned != 0,
            last_read_message_id,
        },
    )
}

/// A column that does not decode: its position in the row and the text of
/// the error.
#[derive(Debug)]
pub struct ColumnError {
    pub index: usize,
    pub message: String,
}

/// Abstract value of a column decoding result.
pub open spec fn column_result<T, V>(r: Result<T, ColumnError>, view: spec_fn(T) -> V) -> Result<V, (usize, Seq<char>)> {
    match r {
        Ok(v) => Ok(view(v)),
        Err(e) => Err((e.index, e.message@)),
    }
}

/// A required identifier column at position `index`.
pub open spec fn id_column(index: usize, t: Seq<char>) -> Result<u128, (usize, Seq<char>)> {
    match uuid_parse(t) {
        Ok(v) => Ok(v),
        Err(e) => Err((index, e)),
    }
}

/// An optional identifier column at position `index`.
pub open spec fn optional_id_column(index: usize, t: Option<Seq<char>>) -> Result<Option<u128>, (usize, Seq<char>)> {
    match t {
        None => Ok(None),
        Some(t) => match uuid_parse(t) {
            Ok(v) => Ok(Some(v)),
            Err(e) => Err((index, e)),
        },
    }
}

/// A required identifier column decoded.
fn decode_id_column(index: usize, t: &str) -> (r: Result<u128, ColumnError>)
    ensures
        column_result(r, |v: u128| v) == id_column(index, t@),
{
    match parse_uuid(t) {
        Ok(v) => Ok(v),
        Err(message) => Err(ColumnError { index, message }),
    }
}

/// An optional identifier column decoded.
fn decode_optional_id_column(index: usize, t: &Option<String>) -> (r: Result<Option<u128>, ColumnError>)
    ensures
        column_result(r, |v: Option<u128>| v) == optional_id_column(index, opt_chars(*t)),
{
    match t {
        None => Ok(None),
        Some(s) => match parse_uuid(s.as_str()) {
            Ok(v) => Ok(Some(v)),
            Err(message) => Err(ColumnError { index, message }),
        },
    }
}

/// The columns of a token usage record, as read.
#[derive(Debug)]
pub struct UsageRecordRow {
    pub id: String,
    pub chat_id: Option<String>,
    pub model: String,
    pub prompt_tokens: i64,
    pub completion_tokens: i64,
    pub total_tokens: i64,
    pub created_at: String,
}

/// The token usage of one call.
#[derive(Debug)]
pub struct TokenUsageRecord {
    pub id: u128,
    pub chat_id: Option<u128>,
    pub model: String,
    pub prompt_tokens: i64,
    pub completion_tokens: i64,
    pub total_tokens: i64,
    pub created_at: String,
}

/// Abstract value of a token usage record.
pub open spec fn usage_record_view(r: TokenUsageRecord) -> (u128, Option<u128>, Seq<char>, i64, i64, i64, Seq<char>) {
    (r.id, r.chat_id, r.model@, r.prompt_tokens, r.completion_tokens, r.total_tokens, r.created_at@)
}

/// The record a usage row decodes to, or the first identifier column (id
/// at 0, chat at 1) that is not a UUID.
pub open spec fn usage_row_spec(row: UsageRecordRow) -> Result<(u128, Option<u128>, Seq<char>, i64, i64, i64, Seq<char>), (usize, Seq<char>)> {
    match id_column(0, row.id@) {
        Err(e) => Err(e),
        Ok(id) => match optional_id_column(1, opt_chars(row.chat_id)) {
            Err(e) => Err(e),
            Ok(chat) => Ok((id, chat, row.model@, row.prompt_tokens, row.completion_tokens, row.total_tokens, row.created_at@)),
        },
    }
}

/// Decodes a token usage row.
pub fn decode_usage_row(row: UsageRecordRow) -> (r: Result<TokenUsageRecord, ColumnError>)
    ensures
        column_result(r, |v: TokenUsageRecord| usage_record_view(v)) == usage_row_spec(row),
{
    let id = match decode_id_column(0, row.id.as_str()) {
        Ok(v) => v,
        Err(e) => {
            return Err(e);
        },
    };
    let chat_id = match decode_optional_id_column(1, &row.chat_id) {
        Ok(v) => v,
        Err(e) => {
            return Err(e);
        },
    };
    Ok(
        TokenUsageRecord {
            id,
            chat_id,
            model: row.model,
            prompt_tokens: row.prompt_tokens,
            completion_tokens: row.completion_tokens,
            total_tokens: row.total_tokens,
            created_at: row.created_at,
        },
    )
}

/// The columns of a bookmark, as read.
#[derive(Debug)]
pub struct BookmarkRow {
    pub id: String,
    pub chat_id: String,
    pub message_id: String,
    pub label: Option<String>,
    pub created_at: String,
}

/// A bookmarked message.
#[derive(Debug)]
pub struct Bookmark {
    pub id: u128,
    pub chat_id: u128,
    pub message_id: u128,
    pub label: Option<String>,
    pub created_at: String,
}

/// Abstract value of a bookmark.
pub open spec fn bookmark_view(b: Bookmark) -> (u128, u128, u128, Option<Seq<char>>, Seq<char>) {
    (b.id, b.chat_id, b.message_id, opt_chars(b.label), b.created_at@)
}

/// The bookmark a row decodes to, or the first identifier column (id at 0,
/// chat at 1, message at 2) that is not a UUID.
pub open spec fn bookmark_row_spec(row: BookmarkRow) -> Result<(u128, u128, u128, Option<Seq<char>>, Seq<char>), (usize, Seq<char>)> {
    match id_column(0, row.id@) {
        Err(e) => Err(e),
        Ok(id) => match id_column(1, row.chat_id@) {
            Err(e) => Err(e),
            Ok(chat) => match id_column(2, row.message_id@) {
                Err(e) => Err(e),
                Ok(msg) => Ok((id, chat, msg, opt_chars(row.label), row.created_at@)),
            },
        },
    }
}

/// Decodes a bookmark row.
pub fn decode_bookmark_row(row: BookmarkRow) -> (r: Result<Bookmark, ColumnError>)
    ensures
        column_result(r, |v: Bookmark| bookmark_view(v)) == bookmark_row_spec(row),
{
    let id = match decode_id_column(0, row.id.as_str()) {
        Ok(v) => v,
        Err(e) => {
            return Err(e);
        },
    };
    let chat_id = match decode_id_column(1, row.chat_id.as_str()) {
        Ok(v) => v,
        Err(e) => {
            return Err(e);
        },
    };
    let message_id = match decode_id_column(2, row.message_id.as_str()) {
        Ok(v) => v,
        Err(e) => {
            return Err(e);
        },
    };
    Ok(Bookmark { id, chat_id, message_id, label: row.label, created_at: row.created_at })
}

/// What `serde_json::from_str::<Vec<String>>` gives for `text`: the
/// strings, or the text of its error.
pub uninterp spec fn json_string_list(text: Seq<char>) -> Result<Seq<Seq<char>>, Seq<char>>;

/// `serde_json::from_str::<Vec<String>>(text)`, with the error as text.
#[verifier::external_body]
fn parse_string_list(text: &str) -> (r: Result<Vec<String>, String>)
    ensures
        match r {
            Ok(v) => json_string_list(text@) == Ok::<Seq<Seq<char>>, Seq<char>>(v@.map_values(|s: String| s@)),
            Err(m) => json_string_list(text@) == Err::<Seq<Seq<char>>, Seq<char>>(m@),
        },
{
    match serde_json::from_str::<Vec<String>>(text) {
        Ok(v) => Ok(v),
        Err(e) => Err(e.to_string()),
    }
}

/// The columns of a prompt template, as read.
#[derive(Debug)]
pub struct TemplateRow {
    pub id: String,
    pub name: String,
    pub description: Option<String>,
    pub template: String,
    pub variables: Option<String>,
    pub category: Option<String>,
    pub created_at: String,
    pub updated_at: String,
}

/// A stored prompt template.
#[derive(Debug)]
pub struct PromptTemplate {
    pub id: u128,
    pub name: String,
    pub description: Option<String>,
    pub template: String,
    pub variables: Vec<String>,
    pub category: Option<String>,
    pub created_at: String,
    pub updated_at: String,
}

/// Abstract value of a prompt template.
pub struct PromptTemplateView {
    pub id: u128,
    pub name: Seq<char>,
    pub description: Option<Seq<char>>,
    pub template: Seq<char>,
    pub variables: Seq<Seq<char>>,
    pub category: Option<Seq<char>>,
    pub created_at: Seq<char>,
    pub updated_at: Seq<char>,
}

/// The abstract value of a prompt template.
pub open spec fn template_view(t: PromptTemplate) -> PromptTemplateView {
    PromptTemplateView {
        id: t.id,
        name: t.name@,
        description: opt_chars(t.description),
        template: t.template@,
        variables: t.variables@.map_values(|s: String| s@),
        category: opt_chars(t.category),
        created_at: t.created_at@,
        updated_at: t.updated_at@,
    }
}

/// The template a row decodes to: the id (column 0) must be a UUID and the
/// variables (column 4), when present, a JSON list of strings; no
/// variables column means none.
pub open spec fn template_row_spec(row: TemplateRow) -> Result<PromptTemplateView, (usize, Seq<char>)> {
    match id_column(0, row.id@) {
        Err(e) => Err(e),
        Ok(id) => {
            let vars: Result<Seq<Seq<char>>, (usize, Seq<char>)> = match opt_chars(row.variables) {
                None => Ok(seq![]),
                Some(t) => match json_string_list(t) {
                    Ok(v) => Ok(v),
                    Err(e) => Err((4usize, e)),
                },
            };
            match vars {
                Err(e) => Err(e),
                Ok(v) => Ok(
                    PromptTemplateView {
                        id,
                        name: row.name@,
                        description: opt_chars(row.description),
                        template: row.template@,
                        variables: v,
                        category: opt_chars(row.category),
                        created_at: row.created_at@,
                        updated_at: row.updated_at@,
                    },
                ),
            }
        },
    }
}

/// Decodes a prompt template row.
pub fn decode_template_row(row: TemplateRow) -> (r: Result<PromptTemplate, ColumnError>)
    ensures
        column_result(r, |v: PromptTemplate| template_view(v)) == template_row_spec(row),
{
    let id = match decode_id_column(0, row.id.as_str()) {
        Ok(v) => v,
        Err(e) => {
            return Err(e);
        },
    };
    let variables = match &row.variables {
        None => {
            let v: Vec<String> = Vec::new();
            proof {
                assert(v@.map_values(|s: String| s@) =~= Seq::<Seq<char>>::empty());
            }
            v
        },
        Some(t) => match parse_string_list(t.as_str()) {
            Ok(v) => v,
            Err(message) => {
                return Err(ColumnError { index: 4, message });
            },
        },
    };
    Ok(
        PromptTemplate {
            id,
            name: row.name,
            description: row.description,
            template: row.template,
            variables,
            category: row.category,
            created_at: row.created_at,
            updated_at: row.updated_at,
        },
    )
}

/// What `chrono::DateTime::parse_from_rfc3339` gives for `text`: the
/// instant in UTC as whole seconds since the epoch and nanoseconds, or the
/// text of its error.
pub uninterp spec fn rfc3339_instant(text: Seq<char>) -> Result<(i64, u32), Seq<char>>;

/// `chrono::DateTime::parse_from_rfc3339(text)` taken to UTC, as seconds
/// since the epoch and nanoseconds, or the error's text.
#[verifier::external_body]
fn parse_rfc3339(text: &str) -> (r: Result<(i64, u32), String>)
    ensures
        match r {
            Ok(v) => rfc3339_instant(text@) == Ok::<(i64, u32), Seq<char>>(v),
            Err(m) => rfc3339_instant(text@) == Err::<(i64, u32), Seq<char>>(m@),
        },
{
    match chrono::DateTime::parse_from_rfc3339(text) {
        Ok(t) => {
            let u = t.to_utc();
            Ok((u.timestamp(), u.timestamp_subsec_nanos()))
        },
        Err(e) => Err(e.to_string()),
    }
}

/// The role a stored role name stands for.
pub open spec fn role_named(s: Seq<char>) -> Option<MessageRole> {
    if s == "user"@ {
        Some(MessageRole::User)
    } else if s == "assistant"@ {
        Some(MessageRole::Assistant)
    } else if s == "system"@ {
        Some(MessageRole::System)
    } else if s == "tool"@ {
        Some(MessageRole::Tool)
    } else {
        None
    }
}

/// The role a stored role name stands for.
fn parse_role(s: &str) -> (r: Option<MessageRole>)
    ensures
        r == role_named(s@),
{
    proof {
        reveal_strlit("user");
        reveal_strlit("assistant");
        reveal_strlit("system");
        reveal_strlit("tool");
    }
    if str_eq(s, "user") {
        Some(MessageRole::User)
    } else if str_eq(s, "assistant") {
        Some(MessageRole::Assistant)
    } else if str_eq(s, "system") {
        Some(MessageRole::System)
    } else if str_eq(s, "tool") {
        Some(MessageRole::Tool)
    } else {
        None
    }
}

/// The columns of a stored message, as read, with the outcome of reading
/// each JSON column (tool calls, artifacts, metadata): the text of the
/// parse error, if any.
#[derive(Debug)]
pub struct MessageRow {
    pub id: String,
    pub chat_id: String,
    pub role: String,
    pub content: String,
    pub tool_calls: Option<String>,
    pub tool_calls_error: Option<String>,
    pub artifacts: Option<String>,
    pub artifacts_error: Option<String>,
    pub timestamp: String,
    pub metadata: Option<String>,
    pub metadata_error: Option<String>,
    pub parent_id: Option<String>,
}

/// A stored message; the JSON columns are kept as their text.
#[derive(Debug)]
pub struct MessageRecord {
    pub id: u128,
    pub chat_id: u128,
    pub role: MessageRole,
    pub content: String,
    pub tool_calls: Option<String>,
    pub artifacts: Option<String>,
    pub timestamp_secs: i64,
    pub timestamp_nanos: u32,
    pub metadata: Option<String>,
    pub parent_id: Option<u128>,
}

/// Abstract value of a stored message.
pub struct MessageView {
    pub id: u128,
    pub chat_id: u128,
    pub role: MessageRole,
    pub content: Seq<char>,
    pub tool_calls: Option<Seq<char>>,
    pub artifacts: Option<Seq<char>>,
    pub timestamp: (i64, u32),
    pub metadata: Option<Seq<char>>,
    pub parent_id: Option<u128>,
}

/// The abstract value of a stored message.
pub open spec fn message_view(m: MessageRecord) -> MessageView {
    MessageView {
        id: m.id,
        chat_id: m.chat_id,
        role: m.role,
        content: m.content@,
        tool_calls: opt_chars(m.tool_calls),
        artifacts: opt_chars(m.artifacts),
        timestamp: (m.timestamp_secs, m.timestamp_nanos),
        metadata: opt_chars(m.metadata),
        parent_id: m.parent_id,
    }
}

/// A JSON column at `index` whose reading failed with `err`, if it did.
pub open spec fn json_column(index: usize, err: Option<String>) -> Option<(usize, Seq<char>)> {
    match err {
        Some(e) => Some((index, e@)),
        None => None,
    }
}

/// The message a row decodes to, or the error of the first column that
/// fails, in the order role (2, reported as `role_prefix` and the name),
/// tool calls (4), artifacts (5), metadata (7), timestamp (6), parent (8),
/// id (0), chat (1).
pub open spec fn message_row_with(row: MessageRow, role_prefix: Seq<char>) -> Result<MessageView, (usize, Seq<char>)> {
    match role_named(row.role@) {
        None => Err((2usize, role_prefix + row.role@)),
        Some(role) => match json_column(4, row.tool_calls_error) {
            Some(e) => Err(e),
            None => match json_column(5, row.artifacts_error) {
                Some(e) => Err(e),
                None => match json_column(7, row.metadata_error) {
                    Some(e) => Err(e),
                    None => match rfc3339_instant(row.timestamp@) {
                        Err(e) => Err((6usize, e)),
                        Ok(ts) => match optional_id_column(8, opt_chars(row.parent_id)) {
                            Err(e) => Err(e),
                            Ok(parent) => match id_column(0, row.id@) {
                                Err(e) => Err(e),
                                Ok(id) => match id_column(1, row.chat_id@) {
                                    Err(e) => Err(e),
                                    Ok(chat) => Ok(
                                        MessageView {
                                            id,
                                            chat_id: chat,
                                            role,
                                            content: row.content@,
                                            tool_calls: opt_chars(row.tool_calls),
                                            artifacts: opt_chars(row.artifacts),
                                            timestamp: ts,
                                            metadata: opt_chars(row.metadata),
                                            parent_id: parent,
                                        },
                                    ),
                                },
                            },
                        },
                    },
                },
            },
        },
    }
}

/// The message a row of the message table decodes to.
pub open spec fn message_row_spec(row: MessageRow) -> Result<MessageView, (usize, Seq<char>)> {
    message_row_with(row, "unknown message role: "@)
}

/// Decodes the columns of a message row, `role_prefix` starting the error
/// for an unknown role.
fn decode_message_with(row: MessageRow, role_prefix: &str) -> (r: Result<MessageRecord, ColumnError>)
    ensures
        column_result(r, |v: MessageRecord| message_view(v)) == message_row_with(row, role_prefix@),
{
    let role = match parse_role(row.role.as_str()) {
        Some(role) => role,
        None => {
            let mut message = String::from_str(role_prefix);
            message.append(row.role.as_str());
            return Err(ColumnError { index: 2, message });
        },
    };
    if let Some(e) = row.tool_calls_error {
        return Err(ColumnError { index: 4, message: e });
    }
    if let Some(e) = row.artifacts_error {
        return Err(ColumnError { index: 5, message: e });
    }
    if let Some(e) = row.metadata_error {
        return Err(ColumnError { index: 7, message: e });
    }
    let (secs, nanos) = match parse_rfc3339(row.timestamp.as_str()) {
        Ok(v) => v,
        Err(message) => {
            return Err(ColumnError { index: 6, message });
        },
    };
    let parent_id = match decode_optional_id_column(8, &row.parent_id) {
        Ok(v) => v,
        Err(e) => {
            return Err(e);
        },
    };
    let id = match decode_id_column(0, row.id.as_str()) {
        Ok(v) => v,
        Err(e) => {
            return Err(e);
        },
    };
    let chat_id = match decode_id_column(1, row.chat_id.as_str()) {
        Ok(v) => v,
        Err(e) => {
            return Err(e);
        },
    };
    Ok(
        MessageRecord {
            id,
            chat_id,
            role,
            content: row.content,
            tool_calls: row.tool_calls,
            artifacts: row.artifacts,
            timestamp_secs: secs,
            timestamp_nanos: nanos,
            metadata: row.metadata,
            parent_id,
        },
    )
}

/// Decodes a message row: a known role, readable JSON columns, an RFC 3339
/// timestamp and UUID identifiers; the first column that fails is
/// reported.
pub fn decode_message_row(row: MessageRow) -> (r: Result<MessageRecord, ColumnError>)
    ensures
        column_result(r, |v: MessageRecord| message_view(v)) == message_row_spec(row),
{
    proof {
        reveal_strlit("unknown message role: ");
    }
    decode_message_with(row, "unknown message role: ")
}

/// The columns of a search result row: a message's columns and the title
/// of its chat (`None` when it could not be read).
#[derive(Debug)]
pub struct SearchRow {
    pub message: MessageRow,
    pub chat_title: Option<String>,
}

/// A message found by a search, with its chat's title.
#[derive(Debug)]
pub struct SearchHit {
    pub message: MessageRecord,
    pub chat_title: String,
}

/// Abstract value of a search hit.
pub open spec fn hit_view(h: SearchHit) -> (MessageView, Seq<char>) {
    (message_view(h.message), h.chat_title@)
}

/// The hit a search row decodes to: the message as in the message table
/// (an unknown role reported as `unknown role: `), and the chat's title,
/// `(unknown)` when it could not be read.
pub open spec fn search_row_spec(row: SearchRow) -> Result<(MessageView, Seq<char>), (usize, Seq<char>)> {
    match message_row_with(row.message, "unknown role: "@) {
        Err(e) => Err(e),
        Ok(m) => Ok(
            (
                m,
                match row.chat_title {
                    Some(t) => t@,
                    None => "(unknown)"@,
                },
            ),
        ),
    }
}

/// Decodes a search result row.
pub fn decode_search_row(row: SearchRow) -> (r: Result<SearchHit, ColumnError>)
    ensures
        column_result(r, |v: SearchHit| hit_view(v)) == search_row_spec(row),
{
    proof {
        reveal_strlit("unknown role: ");
        reveal_strlit("(unknown)");
    }
    let message = match decode_message_with(row.message, "unknown role: ") {
        Ok(m) => m,
        Err(e) => {
            return Err(e);
        },
    };
    let chat_title = match row.chat_title {
        Some(t) => t,
        None => String::from_str("(unknown)"),
    };
    Ok(SearchHit { message, chat_title })
}

} // verus!
