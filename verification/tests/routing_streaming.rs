use hyprcollab::threads::{build_tree, ThreadEntry};
use hyprcollab::routing::{ImageRouter, LlmRouter, NamedMap, RouteError};
use hyprcollab::streaming::{
    classify_data, classify_message_event, completion_reason, completion_step, content_delta_step,
    local_chunk, message_delta_step, ollama_stream_item, parse_stop_reason, ChoiceDelta, ContentDelta, DataKind,
    FinishReason, MessageDelta, MessageEvent, StreamStep, TokenUsage, ToolCallAssembler,
    ToolCallDelta,
};

// ── image routing ─────────────────────────────────────────────────────────────

#[test]
fn image_router_add_and_default() {
    let mut router: ImageRouter<u32> = ImageRouter::new();
    assert!(matches!(router.default_provider(), Err(RouteError::NoDefaultProvider)));
    router.add("p1".to_string(), 1);
    assert!(router.has_provider("p1"));
    assert!(!router.has_provider("p2"));
    assert!(!router.set_default("missing"));
    assert!(router.set_default("p1"));
    assert_eq!(*router.default_provider().unwrap(), 1);
    router.add("p1".to_string(), 7);
    assert_eq!(*router.provider("p1").unwrap(), 7);
    assert_eq!(router.provider_names(), vec!["p1".to_string()]);
    let err = router.provider("nope").unwrap_err();
    assert_eq!(err.message(), "provider not found: 'nope'");
    assert_eq!(RouteError::NoDefaultProvider.message(), "no default provider configured");
}

#[test]
fn named_map_keeps_first_insertion_order() {
    let mut m: NamedMap<i32> = NamedMap::new();
    m.insert("b".to_string(), 1);
    m.insert("a".to_string(), 2);
    m.insert("b".to_string(), 3);
    assert_eq!(m.names(), vec!["b".to_string(), "a".to_string()]);
    assert_eq!(m.get("b"), Some(&3));
    assert_eq!(m.get("c"), None);
    assert_eq!(m.first_name().as_deref(), Some("b"));
}

// ── model routing ─────────────────────────────────────────────────────────────

fn router() -> LlmRouter<&'static str> {
    let mut r = LlmRouter::new();
    r.register("remote".to_string(), "R");
    r.register("local".to_string(), "L");
    r
}

#[test]
fn resolve_provider_prefix() {
    let r = router();
    assert_eq!(r.resolve("local/llama3").unwrap(), ("local".to_string(), "llama3".to_string()));
    assert_eq!(r.resolve("local/a/b").unwrap(), ("local".to_string(), "a/b".to_string()));
}

#[test]
fn resolve_unknown_prefix_uses_default_with_whole_name() {
    let mut r = router();
    r.set_default("remote".to_string());
    assert_eq!(r.resolve("other/x").unwrap(), ("remote".to_string(), "other/x".to_string()));
    assert_eq!(r.resolve("plain").unwrap(), ("remote".to_string(), "plain".to_string()));
}

#[test]
fn resolve_without_default_uses_first_registered() {
    let r = router();
    assert_eq!(r.resolve("plain").unwrap(), ("remote".to_string(), "plain".to_string()));
}

#[test]
fn resolve_alias_first() {
    let mut r = router();
    r.add_alias("fast".to_string(), "local/tiny".to_string());
    assert_eq!(r.resolve("fast").unwrap(), ("local".to_string(), "tiny".to_string()));
}

#[test]
fn resolve_without_providers_is_error() {
    let r: LlmRouter<u8> = LlmRouter::new();
    assert_eq!(r.resolve("m").unwrap_err(), "No provider found for model: m");
    assert_eq!(r.embedding_provider().unwrap_err(), "No providers registered");
}

#[test]
fn route_gives_provider_and_model() {
    let mut r = router();
    let (p, m) = r.route("local/q").unwrap();
    assert_eq!((*p, m.as_str()), ("L", "q"));
    r.set_default("ghost".to_string());
    assert_eq!(r.route("x").unwrap_err(), "Provider not found: ghost");
    assert_eq!(r.embedding_provider().unwrap(), "ghost");
    assert!(r.get_provider("remote").is_some());
    assert_eq!(r.provider_names(), vec!["remote".to_string(), "local".to_string()]);
}

// ── messages protocol ─────────────────────────────────────────────────────────

#[test]
fn message_events_classified() {
    assert!(matches!(classify_message_event("ping", "{}"), MessageEvent::Skip));
    assert!(matches!(classify_message_event("content_block_delta", "  "), MessageEvent::Skip));
    assert!(matches!(classify_message_event("content_block_delta", "{}"), MessageEvent::ContentDelta));
    assert!(matches!(classify_message_event("message_delta", "{}"), MessageEvent::MessageDelta));
    assert!(matches!(classify_message_event("message_stop", "{}"), MessageEvent::Stop));
    match classify_message_event("error", " boom ") {
        MessageEvent::Fail(m) => assert_eq!(m, "Anthropic stream error: boom"),
        _ => panic!("expected failure"),
    }
}

#[test]
fn content_delta_prefers_text() {
    match content_delta_step(Ok(ContentDelta { text: Some("hi".into()), partial_json: Some("{".into()) })) {
        StreamStep::Emit(c) => assert_eq!(c.delta, "hi"),
        _ => panic!(),
    }
    match content_delta_step(Ok(ContentDelta { text: Some(String::new()), partial_json: Some("{\"a\"".into()) })) {
        StreamStep::Emit(c) => assert_eq!(c.delta, "{\"a\""),
        _ => panic!(),
    }
    assert!(matches!(content_delta_step(Ok(ContentDelta { text: None, partial_json: None })), StreamStep::Skip));
    match content_delta_step(Err("bad".into())) {
        StreamStep::Fail(m) => assert_eq!(m, "Failed to parse content_block_delta: bad"),
        _ => panic!(),
    }
}

#[test]
fn message_delta_gives_finish_and_usage() {
    match message_delta_step(Ok(MessageDelta { stop_reason: Some("max_tokens".into()), output_tokens: Some(12) })) {
        StreamStep::Emit(c) => {
            assert_eq!(c.finish_reason, Some(FinishReason::Length));
            assert_eq!(c.usage, Some(TokenUsage { prompt_tokens: 0, completion_tokens: 12, total_tokens: 12 }));
            assert!(c.delta.is_empty());
        }
        _ => panic!(),
    }
    assert_eq!(parse_stop_reason(Some("tool_use")), FinishReason::ToolCalls);
    assert_eq!(parse_stop_reason(Some("end_turn")), FinishReason::Stop);
    assert_eq!(parse_stop_reason(None), FinishReason::Stop);
}

// ── completions protocol ──────────────────────────────────────────────────────

#[test]
fn data_kinds() {
    assert_eq!(classify_data(" [DONE] "), DataKind::Done);
    assert_eq!(classify_data("\n"), DataKind::Empty);
    assert_eq!(classify_data("{}"), DataKind::Payload);
    assert_eq!(completion_reason("content_filter"), FinishReason::ContentFilter);
    assert_eq!(completion_reason("weird"), FinishReason::Stop);
}

fn frag(index: usize, id: Option<&str>, name: Option<&str>, args: Option<&str>) -> ToolCallDelta {
    ToolCallDelta {
        index,
        id: id.map(String::from),
        name: name.map(String::from),
        arguments: args.map(String::from),
    }
}

#[test]
fn tool_calls_assembled_across_chunks() {
    let mut acc = ToolCallAssembler::new();
    let out = completion_step(
        &mut acc,
        Some(ChoiceDelta { content: Some(String::new()), finish_reason: None, tool_calls: vec![frag(1, Some("c2"), Some("g"), Some("{\"y\":"))] }),
        None,
    );
    assert!(out.is_empty());
    let out = completion_step(
        &mut acc,
        Some(ChoiceDelta {
            content: Some("ok".into()),
            finish_reason: None,
            tool_calls: vec![frag(0, Some("c1"), Some("f"), Some("{}")), frag(1, None, None, Some("2}"))],
        }),
        None,
    );
    assert_eq!(out.len(), 1);
    assert_eq!(out[0].delta, "ok");
    let usage = TokenUsage { prompt_tokens: 1, completion_tokens: 2, total_tokens: 3 };
    let out = completion_step(
        &mut acc,
        Some(ChoiceDelta { content: None, finish_reason: Some("tool_calls".into()), tool_calls: vec![] }),
        Some(usage),
    );
    assert_eq!(out.len(), 1);
    assert_eq!(out[0].finish_reason, Some(FinishReason::ToolCalls));
    assert_eq!(out[0].usage, Some(usage));
    let calls: Vec<(String, String, String)> =
        out[0].tool_calls.iter().map(|c| (c.id.clone(), c.name.clone(), c.arguments.clone())).collect();
    assert_eq!(
        calls,
        vec![
            ("c1".to_string(), "f".to_string(), "{}".to_string()),
            ("c2".to_string(), "g".to_string(), "{\"y\":2}".to_string()),
        ]
    );
    assert!(acc.take().is_empty());
}

#[test]
fn stop_finish_keeps_partial_calls() {
    let mut acc = ToolCallAssembler::new();
    let out = completion_step(
        &mut acc,
        Some(ChoiceDelta { content: None, finish_reason: Some("stop".into()), tool_calls: vec![frag(0, Some("i"), None, None)] }),
        None,
    );
    assert_eq!(out.len(), 1);
    assert!(out[0].tool_calls.is_empty());
    assert_eq!(acc.take().len(), 1);
    assert!(completion_step(&mut acc, None, None).is_empty());
}

#[test]
fn local_chunks() {
    let c = local_chunk(Some("x".into()), Some("length"));
    assert_eq!((c.delta.as_str(), c.finish_reason), ("x", Some(FinishReason::Length)));
    let c = local_chunk(None, Some("eos"));
    assert_eq!((c.delta.as_str(), c.finish_reason), ("", Some(FinishReason::Stop)));
    let c = local_chunk(Some("y".into()), None);
    assert_eq!(c.finish_reason, None);
}

#[test]
fn ollama_response_builds_answer_with_defaults() {
    let body = r#"{"choices":[{"message":{"content":"hi"},"finish_reason":"length"}],"usage":{"prompt_tokens":3,"completion_tokens":4,"total_tokens":7}}"#;
    let c = hyprcollab::streaming::parse_ollama_response(body, 9, "llama3").unwrap();
    assert_eq!(c.id, "ollama");
    assert_eq!(c.model, "llama3");
    assert_eq!(c.content, "hi");
    assert_eq!(c.chat_id, 9);
    assert_eq!((c.usage.prompt_tokens, c.usage.completion_tokens, c.usage.total_tokens), (3, 4, 7));
    assert_eq!(c.finish_reason, hyprcollab::streaming::FinishReason::Length);
    let c = hyprcollab::streaming::parse_ollama_response(r#"{"id":"x","model":"m","choices":[]}"#, 0, "llama3").unwrap();
    assert_eq!((c.id.as_str(), c.model.as_str(), c.content.as_str()), ("x", "m", ""));
    assert_eq!(c.finish_reason, hyprcollab::streaming::FinishReason::Stop);
    assert!(hyprcollab::streaming::parse_ollama_response("{", 0, "m").unwrap_err().starts_with("Failed to parse Ollama response: "));
}

// ── the original scenarios ────────────────────────────────────────────────────

#[test]
fn test_router_add_and_has() {
    let mut router: ImageRouter<&str> = ImageRouter::new();
    router.add("p1".to_string(), "p1");
    assert!(router.has_provider("p1"));
    assert!(!router.has_provider("p2"));
}

#[test]
fn test_router_set_default_ok() {
    let mut router: ImageRouter<&str> = ImageRouter::new();
    router.add("p1".to_string(), "p1");
    assert!(router.set_default("p1"));
}

#[test]
fn test_router_set_default_missing() {
    let mut router: ImageRouter<&str> = ImageRouter::new();
    assert!(!router.set_default("ghost"));
}

#[test]
fn test_router_provider_names() {
    let mut router: ImageRouter<&str> = ImageRouter::new();
    router.add("a".to_string(), "a");
    router.add("b".to_string(), "b");
    let names = router.provider_names();
    assert_eq!(names.len(), 2);
    assert!(names.contains(&"a".to_string()));
    assert!(names.contains(&"b".to_string()));
}

#[test]
fn test_resolve_provider_model_format() {
    let mut router: LlmRouter<&str> = LlmRouter::new();
    router.register("openai".to_string(), "openai");
    router.register("anthropic".to_string(), "anthropic");
    let (provider, model) = router.resolve("openai/gpt-4o").unwrap();
    assert_eq!(provider, "openai");
    assert_eq!(model, "gpt-4o");
    let (provider, model) = router.resolve("anthropic/sonnet-4").unwrap();
    assert_eq!(provider, "anthropic");
    assert_eq!(model, "sonnet-4");
}

#[test]
fn test_resolve_default_fallback() {
    let mut router: LlmRouter<&str> = LlmRouter::new();
    router.register("openai".to_string(), "openai");
    router.set_default("openai".to_string());
    let (provider, model) = router.resolve("gpt-4o").unwrap();
    assert_eq!(provider, "openai");
    assert_eq!(model, "gpt-4o");
}

#[test]
fn test_resolve_alias() {
    let mut router: LlmRouter<&str> = LlmRouter::new();
    router.register("openai".to_string(), "openai");
    router.add_alias("gpt4".to_string(), "openai/gpt-4o".to_string());
    let (provider, model) = router.resolve("gpt4").unwrap();
    assert_eq!(provider, "openai");
    assert_eq!(model, "gpt-4o");
}

#[test]
fn test_provider_names() {
    let mut router: LlmRouter<&str> = LlmRouter::new();
    router.register("openai".to_string(), "openai");
    router.register("anthropic".to_string(), "anthropic");
    let mut names = router.provider_names();
    names.sort();
    assert_eq!(names, vec!["anthropic".to_string(), "openai".to_string()]);
}

#[test]
fn test_no_provider_error() {
    let router: LlmRouter<&str> = LlmRouter::new();
    assert!(router.resolve("gpt-4o").is_err());
}

#[test]
fn test_resolve_model_fallback() {
    assert_eq!(hyprcollab::streaming::request_model("mistral", ""), "mistral");
    assert_eq!(hyprcollab::streaming::request_model("mistral", "llama3"), "llama3");
}

#[test]
fn render_template_substitutes_variables() {
    let required = vec!["name".to_string(), "age".to_string()];
    let vars = vec![("name".to_string(), "Alice".to_string()), ("age".to_string(), "30".to_string())];
    let rendered =
        hyprcollab::templates::render_template_str("Hello {{name}}, you are {{age}}!", &required, &vars).unwrap();
    assert_eq!(rendered, "Hello Alice, you are 30!");
}

#[test]
fn render_template_missing_var_returns_error() {
    let required = vec!["a".to_string(), "b".to_string()];
    let vars = vec![("a".to_string(), "only_a".to_string())];
    let result = hyprcollab::templates::render_template_str("{{a}} {{b}}", &required, &vars);
    assert!(result.is_err());
    assert!(result.unwrap_err().contains("missing required variable: b"));
}

#[test]
fn load_builtin_templates_creates_four() {
    let templates = hyprcollab::templates::builtin_templates();
    assert_eq!(templates.len(), 4);
    let names: Vec<&str> = templates.iter().map(|t| t.name).collect();
    assert!(names.contains(&"code-review"));
    assert!(names.contains(&"explain"));
    assert!(names.contains(&"summarize"));
    assert!(names.contains(&"translate"));
}

#[test]
fn render_builtin_code_review() {
    let templates = hyprcollab::templates::builtin_templates();
    let tmpl = templates.iter().find(|t| t.name == "code-review").unwrap();
    let required: Vec<String> = tmpl.variables.iter().map(|v| v.to_string()).collect();
    let vars = vec![("language".to_string(), "Rust".to_string()), ("code".to_string(), "fn main() {}".to_string())];
    let rendered = hyprcollab::templates::render_template_str(tmpl.template, &required, &vars).unwrap();
    assert!(rendered.contains("Rust"));
    assert!(rendered.contains("fn main() {}"));
}

#[test]
fn get_message_tree_builds_correct_structure() {
    let all = vec![
        ThreadEntry { id: 1, parent_id: None },
        ThreadEntry { id: 2, parent_id: Some(1) },
        ThreadEntry { id: 3, parent_id: Some(2) },
    ];
    let tree = build_tree(&all, None);
    assert_eq!(tree.len(), 1);
    assert_eq!(tree[0].index, 0);
    assert_eq!(tree[0].children.len(), 1);
    assert_eq!(tree[0].children[0].index, 1);
    assert_eq!(tree[0].children[0].children.len(), 1);
    assert_eq!(tree[0].children[0].children[0].index, 2);
}

#[test]
fn empty_chat_tree_returns_empty() {
    let all: Vec<hyprcollab::threads::ThreadEntry> = vec![];
    assert!(hyprcollab::threads::build_tree(&all, None).is_empty());
}

#[test]
fn ollama_stream_item_steps() {
    assert!(matches!(ollama_stream_item("[DONE]"), StreamStep::Stop));
    assert!(matches!(ollama_stream_item("   "), StreamStep::Skip));
    match ollama_stream_item(r#"{"choices":[{"delta":{"content":"hi"},"finish_reason":"length"}]}"#) {
        StreamStep::Emit(c) => {
            assert_eq!(c.delta, "hi");
            assert_eq!(c.finish_reason, Some(FinishReason::Length));
            assert!(c.usage.is_none() && c.tool_calls.is_empty());
        }
        _ => panic!("expected a chunk"),
    }
    match ollama_stream_item(r#"  {"choices":[{"delta":{},"finish_reason":"stop"}]}  "#) {
        StreamStep::Emit(c) => {
            assert_eq!(c.delta, "");
            assert_eq!(c.finish_reason, Some(FinishReason::Stop));
        }
        _ => panic!("expected a chunk"),
    }
    match ollama_stream_item(r#"{"choices":[{"delta":{"content":"x"},"finish_reason":null}]}"#) {
        StreamStep::Emit(c) => {
            assert_eq!(c.delta, "x");
            assert_eq!(c.finish_reason, None);
        }
        _ => panic!("expected a chunk"),
    }
    match ollama_stream_item("{") {
        StreamStep::Fail(m) => assert!(m.starts_with("Parse error: ") && m.len() > 13),
        _ => panic!("expected a parse error"),
    }
}
