use hyprcollab::export::{render_markdown, role_label, ExportChat, ExportFormat, ExportMessage, ExportOptions, MessageRole};
use hyprcollab::facts::{parse_category, FactCategory};
use hyprcollab::templates::{render_template_str, replace_all};
use hyprcollab::usage::{summarize_usage, UsageRow};

#[test]
fn category_roundtrip_display_and_parse() {
    for (cat, s) in [
        (FactCategory::Preference, "preference"),
        (FactCategory::Fact, "fact"),
        (FactCategory::Pattern, "pattern"),
        (FactCategory::Correction, "correction"),
        (FactCategory::Environment, "environment"),
    ] {
        assert_eq!(cat.to_string(), s);
        assert_eq!(s.parse::<FactCategory>().unwrap(), cat);
    }
}

#[test]
fn category_parse_unknown_returns_error() {
    assert!("unknown_cat".parse::<FactCategory>().is_err());
}

#[test]
fn category_parse_error_names_the_text() {
    assert_eq!(parse_category("Fact").unwrap_err(), "unknown fact category: 'Fact'");
}

// ── templates ─────────────────────────────────────────────────────────────────

fn vars(pairs: &[(&str, &str)]) -> Vec<(String, String)> {
    pairs.iter().map(|(k, v)| (k.to_string(), v.to_string())).collect()
}

#[test]
fn render_substitutes_every_occurrence() {
    let t = "```{{language}}\n{{code}}\n``` in {{language}}";
    let out = render_template_str(
        t,
        &vec!["language".to_string(), "code".to_string()],
        &vars(&[("language", "Rust"), ("code", "fn main() {}")]),
    )
    .unwrap();
    assert_eq!(out, "```Rust\nfn main() {}\n``` in Rust");
}

#[test]
fn render_missing_required_variable_is_error() {
    let err = render_template_str("Hi {{name}}", &vec!["name".to_string()], &vars(&[])).unwrap_err();
    assert_eq!(err, "missing required variable: name");
}

#[test]
fn render_leaves_unknown_placeholders() {
    let out = render_template_str("{{a}} {{b}}", &vec![], &vars(&[("a", "1")])).unwrap();
    assert_eq!(out, "1 {{b}}");
}

#[test]
fn replace_all_is_leftmost_and_non_overlapping() {
    assert_eq!(replace_all("aaaa", "aa", "b"), "bb");
    assert_eq!(replace_all("aaa", "aa", "b"), "ba");
    assert_eq!(replace_all("héllo héllo", "é", "e"), "hello hello");
    assert_eq!(replace_all("abc", "x", "y"), "abc");
}

// ── usage ─────────────────────────────────────────────────────────────────────

fn row(model: &str, prompt: i64, completion: i64, total: i64, count: i64) -> UsageRow {
    UsageRow { model: model.to_string(), prompt, completion, total, count }
}

#[test]
fn usage_summary_totals_and_breakdown() {
    let rows = vec![row("alpha", 10, 5, 15, 2), row("beta", 1, 2, 3, 1), row("alpha", 4, 4, 8, 1)];
    let s = summarize_usage(&rows);
    assert_eq!((s.total_prompt, s.total_completion, s.total_tokens), (15, 11, 26));
    assert_eq!(s.by_model.len(), 2);
    let alpha = s.model_usage("alpha").unwrap();
    assert_eq!((alpha.prompt_tokens, alpha.completion_tokens, alpha.total_tokens, alpha.call_count), (14, 9, 23, 3));
    let beta = s.model_usage("beta").unwrap();
    assert_eq!(beta.call_count, 1);
    assert!(s.model_usage("other").is_none());
}

#[test]
fn usage_summary_empty() {
    let s = summarize_usage(&vec![]);
    assert_eq!((s.total_prompt, s.total_completion, s.total_tokens), (0, 0, 0));
    assert!(s.by_model.is_empty());
}

// ── export ────────────────────────────────────────────────────────────────────

#[test]
fn export_markdown_layout() {
    let chat = ExportChat { title: "Plans".into(), model: "m1".into(), created_at: "2024-01-01T00:00:00+00:00".into() };
    let msgs = vec![
        ExportMessage {
            role: MessageRole::User,
            timestamp: "T1".into(),
            content: "hello".into(),
            tool_calls_json: Some("[1]".into()),
            artifacts_json: None,
            metadata_json: Some("{\"k\":1}".into()),
        },
        ExportMessage {
            role: MessageRole::Assistant,
            timestamp: "T2".into(),
            content: "hi".into(),
            tool_calls_json: None,
            artifacts_json: None,
            metadata_json: None,
        },
    ];
    let plain = render_markdown(&chat, &msgs, &ExportOptions::default());
    assert_eq!(
        plain,
        "# Plans\n\n**Model**: m1\n**Created**: 2024-01-01T00:00:00+00:00\n\n## Messages\n\n**User** _T1_\n\nhello\n\n---\n\n**Assistant** _T2_\n\nhi\n\n---\n\n"
    );
    let opts = ExportOptions { format: ExportFormat::Markdown, include_metadata: true, include_tool_calls: true, include_artifacts: true };
    let full = render_markdown(&chat, &msgs, &opts);
    assert!(full.contains("hello\n\n```json\n[1]\n```\n\n<!-- metadata: {\"k\":1} -->\n\n---\n\n"));
}

#[test]
fn export_role_labels() {
    assert_eq!(role_label(MessageRole::System), "System");
    assert_eq!(role_label(MessageRole::Tool), "Tool");
}

#[test]
fn builtin_templates_are_the_four_seeds() {
    let t = hyprcollab::templates::builtin_templates();
    let names: Vec<&str> = t.iter().map(|b| b.name).collect();
    assert_eq!(names, vec!["code-review", "explain", "summarize", "translate"]);
    assert_eq!(t[3].variables, vec!["source_lang", "target_lang", "content"]);
    assert_eq!(t[1].template, "Please explain {{topic}} at {{detail_level}} detail level.");
    assert_eq!(t[0].category, "coding");
}

#[test]
fn builtin_template_renders_with_its_variables() {
    let t = hyprcollab::templates::builtin_templates();
    let explain = &t[1];
    let required: Vec<String> = explain.variables.iter().map(|v| v.to_string()).collect();
    let vars = vec![
        ("topic".to_string(), "ownership".to_string()),
        ("detail_level".to_string(), "beginner".to_string()),
    ];
    let out = hyprcollab::templates::render_template_str(explain.template, &required, &vars).unwrap();
    assert_eq!(out, "Please explain ownership at beginner detail level.");
}

#[test]
fn export_search_results_markdown() {
    let hits = vec![hyprcollab::export::ExportHit {
        chat_title: "Search Chat".to_string(),
        score: format!("{:.4}", 1.5f64),
        role: MessageRole::User,
        content: "important keyword".to_string(),
    }];
    let md = hyprcollab::export::render_search_markdown(&hits);
    assert!(md.contains("# Search Results"));
    assert!(md.contains("important keyword"));
    assert!(md.contains("Search Chat"));
}

#[test]
fn search_markdown_exact_text() {
    let hits = vec![
        hyprcollab::export::ExportHit {
            chat_title: "A".to_string(),
            score: "0.5000".to_string(),
            role: MessageRole::Assistant,
            content: "x".to_string(),
        },
        hyprcollab::export::ExportHit {
            chat_title: "B".to_string(),
            score: "0.2500".to_string(),
            role: MessageRole::Tool,
            content: "y".to_string(),
        },
    ];
    assert_eq!(
        hyprcollab::export::render_search_markdown(&hits),
        "# Search Results\n\n## Result 1\n\n**Chat**: A\n\n**Score**: 0.5000\n\n**Assistant**: x\n\n---\n\n## Result 2\n\n**Chat**: B\n\n**Score**: 0.2500\n\n**Tool**: y\n\n---\n\n"
    );
    assert_eq!(hyprcollab::export::render_search_markdown(&vec![]), "# Search Results\n\n");
}

#[test]
fn fact_category_from_str_parses_and_rejects() {
    let c: FactCategory = "pattern".parse().unwrap();
    assert_eq!(c, FactCategory::Pattern);
    let e = "Pattern".parse::<FactCategory>().unwrap_err();
    assert_eq!(e, "unknown fact category: 'Pattern'");
}
