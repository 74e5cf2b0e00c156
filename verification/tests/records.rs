use hyprcollab::records::{decode_chat_row, ChatRow};

fn row(id: &str) -> ChatRow {
    ChatRow {
        id: id.to_string(),
        title: "Chat".to_string(),
        workspace_id: None,
        persona_id: None,
        agent_role_id: None,
        model: "m-1".to_string(),
        created_at: "2024-01-01T00:00:00Z".to_string(),
        updated_at: "2024-01-02T00:00:00Z".to_string(),
        pinned: 0,
        last_read_message_id: None,
    }
}

const ID: &str = "67e55044-10b1-426f-9247-bb680e5fe0c8";
const OTHER: &str = "a1a2a3a4-b1b2-c1c2-d1d2-d3d4d5d6d7d8";

#[test]
fn chat_row_decodes_ids_and_flags() {
    let mut r = row(ID);
    r.pinned = 7;
    r.workspace_id = Some(OTHER.to_string());
    r.last_read_message_id = Some(ID.to_string());
    let rec = decode_chat_row(r).unwrap();
    assert_eq!(rec.id, 0x67e55044_10b1_426f_9247_bb680e5fe0c8u128);
    assert_eq!(rec.workspace_id, Some(0xa1a2a3a4_b1b2_c1c2_d1d2_d3d4d5d6d7d8u128));
    assert_eq!(rec.persona_id, None);
    assert_eq!(rec.last_read_message_id, Some(0x67e55044_10b1_426f_9247_bb680e5fe0c8u128));
    assert!(rec.pinned);
    assert_eq!(rec.title, "Chat");
    assert_eq!(rec.model, "m-1");
}

#[test]
fn chat_row_unpinned_when_zero() {
    let rec = decode_chat_row(row(ID)).unwrap();
    assert!(!rec.pinned);
}

#[test]
fn chat_row_rejects_bad_chat_id() {
    let err = decode_chat_row(row("not-a-uuid")).unwrap_err();
    let expected = format!(
        "invalid chat id 'not-a-uuid': {}",
        uuid::Uuid::parse_str("not-a-uuid").unwrap_err()
    );
    assert_eq!(err, expected);
}

#[test]
fn chat_row_reports_first_bad_optional_id() {
    let mut r = row(ID);
    r.persona_id = Some("bad-persona".to_string());
    r.last_read_message_id = Some("bad-last".to_string());
    let err = decode_chat_row(r).unwrap_err();
    assert!(err.starts_with("invalid persona_id 'bad-persona': "), "{err}");
}

use hyprcollab::records::{decode_bookmark_row, decode_template_row, decode_usage_row, BookmarkRow, TemplateRow, UsageRecordRow};

fn usage_row(id: &str, chat: Option<&str>) -> UsageRecordRow {
    UsageRecordRow {
        id: id.to_string(),
        chat_id: chat.map(|c| c.to_string()),
        model: "m-1".to_string(),
        prompt_tokens: 10,
        completion_tokens: 20,
        total_tokens: 30,
        created_at: "2024-01-01T00:00:00Z".to_string(),
    }
}

#[test]
fn usage_row_decodes() {
    let rec = decode_usage_row(usage_row(ID, Some(OTHER))).unwrap();
    assert_eq!(rec.id, 0x67e55044_10b1_426f_9247_bb680e5fe0c8u128);
    assert_eq!(rec.chat_id, Some(0xa1a2a3a4_b1b2_c1c2_d1d2_d3d4d5d6d7d8u128));
    assert_eq!((rec.prompt_tokens, rec.completion_tokens, rec.total_tokens), (10, 20, 30));
    let rec = decode_usage_row(usage_row(ID, None)).unwrap();
    assert_eq!(rec.chat_id, None);
}

#[test]
fn usage_row_reports_bad_columns() {
    let e = decode_usage_row(usage_row("x", Some("y"))).unwrap_err();
    assert_eq!(e.index, 0);
    assert_eq!(e.message, uuid::Uuid::parse_str("x").unwrap_err().to_string());
    let e = decode_usage_row(usage_row(ID, Some("y"))).unwrap_err();
    assert_eq!(e.index, 1);
}

#[test]
fn bookmark_row_decodes_and_reports_message_column() {
    let ok = BookmarkRow {
        id: ID.to_string(),
        chat_id: OTHER.to_string(),
        message_id: ID.to_string(),
        label: Some("keep".to_string()),
        created_at: "t".to_string(),
    };
    let b = decode_bookmark_row(ok).unwrap();
    assert_eq!(b.message_id, 0x67e55044_10b1_426f_9247_bb680e5fe0c8u128);
    assert_eq!(b.label.as_deref(), Some("keep"));
    let bad = BookmarkRow {
        id: ID.to_string(),
        chat_id: OTHER.to_string(),
        message_id: "nope".to_string(),
        label: None,
        created_at: "t".to_string(),
    };
    assert_eq!(decode_bookmark_row(bad).unwrap_err().index, 2);
}

fn template_row(vars: Option<&str>) -> TemplateRow {
    TemplateRow {
        id: ID.to_string(),
        name: "explain".to_string(),
        description: None,
        template: "Please explain {{topic}}.".to_string(),
        variables: vars.map(|v| v.to_string()),
        category: Some("education".to_string()),
        created_at: "t".to_string(),
        updated_at: "u".to_string(),
    }
}

#[test]
fn template_row_decodes_variables() {
    let t = decode_template_row(template_row(Some("[\"topic\",\"level\"]"))).unwrap();
    assert_eq!(t.variables, vec!["topic".to_string(), "level".to_string()]);
    let t = decode_template_row(template_row(None)).unwrap();
    assert!(t.variables.is_empty());
    let e = decode_template_row(template_row(Some("[1, 2"))).unwrap_err();
    assert_eq!(e.index, 4);
}

use hyprcollab::records::{decode_message_row, decode_search_row, MessageRow, SearchRow};
use hyprcollab::export::MessageRole;

fn message_row(role: &str) -> MessageRow {
    MessageRow {
        id: ID.to_string(),
        chat_id: OTHER.to_string(),
        role: role.to_string(),
        content: "hello".to_string(),
        tool_calls: None,
        tool_calls_error: None,
        artifacts: None,
        artifacts_error: None,
        timestamp: "2024-01-01T00:00:01.5+01:00".to_string(),
        metadata: None,
        metadata_error: None,
        parent_id: None,
    }
}

#[test]
fn message_row_decodes() {
    let m = decode_message_row(message_row("assistant")).unwrap();
    assert_eq!(m.role, MessageRole::Assistant);
    assert_eq!(m.id, 0x67e55044_10b1_426f_9247_bb680e5fe0c8u128);
    assert_eq!(m.timestamp_secs, 1704063601);
    assert_eq!(m.timestamp_nanos, 500_000_000);
    assert_eq!(m.content, "hello");
}

#[test]
fn message_row_reports_columns_in_order() {
    let e = decode_message_row(message_row("robot")).unwrap_err();
    assert_eq!((e.index, e.message.as_str()), (2, "unknown message role: robot"));
    let mut r = message_row("user");
    r.timestamp = "yesterday".to_string();
    r.id = "bad".to_string();
    assert_eq!(decode_message_row(r).unwrap_err().index, 6);
    let mut r = message_row("user");
    r.metadata_error = Some("bad json".to_string());
    r.timestamp = "yesterday".to_string();
    let e = decode_message_row(r).unwrap_err();
    assert_eq!((e.index, e.message.as_str()), (7, "bad json"));
    let mut r = message_row("user");
    r.parent_id = Some("nope".to_string());
    r.id = "bad".to_string();
    assert_eq!(decode_message_row(r).unwrap_err().index, 8);
}

#[test]
fn search_row_defaults_title_and_role_message() {
    let hit = decode_search_row(SearchRow { message: message_row("tool"), chat_title: None }).unwrap();
    assert_eq!(hit.chat_title, "(unknown)");
    assert_eq!(hit.message.role, MessageRole::Tool);
    let e = decode_search_row(SearchRow { message: message_row("x"), chat_title: Some("T".to_string()) }).unwrap_err();
    assert_eq!(e.message, "unknown role: x");
}
