use hyprcollab::prompt::{near_duplicate, word_overlap, FactEntry, PromptInjector, MEMORY_BUDGET};

/// The line a fact shows in the memory block.
fn line(category: &str, content: &str, confidence: f64) -> String {
    format!("{}: {} ({:.0}%)\n", category, content, confidence * 100.0)
}

fn fact(category: &str, content: &str, confidence: f64) -> FactEntry {
    FactEntry {
        content: content.to_string(),
        rank: confidence.to_bits(),
        line_len: line(category, content, confidence).len(),
        key: 0,
    }
}

#[test]
fn dedup_removes_near_duplicates() {
    let f1 = fact("preference", "user likes dark mode", 0.7);
    let f2 = fact("preference", "user likes dark mode", 0.9);
    let deduped = PromptInjector::deduplicate_facts(vec![f1, f2]);
    assert_eq!(deduped.len(), 1);
    assert_eq!(deduped[0].rank, 0.9f64.to_bits());
}

#[test]
fn dedup_keeps_distinct_facts() {
    let f1 = fact("preference", "dark mode", 0.9);
    let f2 = fact("fact", "Rust 2024 edition", 0.8);
    let deduped = PromptInjector::deduplicate_facts(vec![f1, f2]);
    assert_eq!(deduped.len(), 2);
}

#[test]
fn dedup_keeps_higher_confidence_on_overlap() {
    let low = fact("preference", "user prefers vim", 0.4);
    let high = fact("preference", "user prefers vim", 0.9);
    let deduped = PromptInjector::deduplicate_facts(vec![low, high]);
    assert_eq!(deduped.len(), 1);
    assert_eq!(deduped[0].rank, 0.9f64.to_bits());
}

#[test]
fn dedup_empty_input_returns_empty() {
    assert!(PromptInjector::deduplicate_facts(vec![]).is_empty());
}

#[test]
fn dedup_keeps_first_when_later_duplicate_ranks_lower() {
    let first = fact("fact", "alpha beta gamma delta epsilon", 0.9);
    let later = fact("fact", "alpha beta gamma delta epsilon", 0.5);
    let other = fact("fact", "something else entirely", 0.5);
    let deduped = PromptInjector::deduplicate_facts(vec![first, later, other]);
    let contents: Vec<&str> = deduped.iter().map(|f| f.content.as_str()).collect();
    assert_eq!(contents, vec!["alpha beta gamma delta epsilon", "something else entirely"]);
    assert_eq!(deduped[0].rank, 0.9f64.to_bits());
}

#[test]
fn budget_drops_low_confidence_when_over_limit() {
    let high = fact("fact", "critical high confidence item", 1.0);
    let low = fact("fact", "low confidence throwaway info", 0.1);
    let budgeted = PromptInjector::budget_facts(vec![low, high], 50);
    assert_eq!(budgeted.len(), 1);
    assert_eq!(budgeted[0].rank, 1.0f64.to_bits());
}

#[test]
fn budget_respects_max_chars() {
    let facts: Vec<FactEntry> =
        (0..20).map(|i| fact("fact", &format!("fact number {i} content"), 0.8)).collect();
    let budgeted = PromptInjector::budget_facts(facts, 100);
    let total: usize = budgeted.iter().map(|f| f.line_len).sum();
    assert!(total <= 100);
    let contents: Vec<&str> = budgeted.iter().map(|f| f.content.as_str()).collect();
    assert_eq!(contents, vec!["fact number 0 content", "fact number 1 content"]);
}

#[test]
fn budget_empty_input_returns_empty() {
    assert!(PromptInjector::budget_facts(vec![], 2000).is_empty());
}

#[test]
fn budget_orders_by_rank_and_keeps_ties_in_order() {
    let a = FactEntry { content: "a".into(), rank: 1, line_len: 5, key: 0 };
    let b = FactEntry { content: "b".into(), rank: 3, line_len: 5, key: 1 };
    let c = FactEntry { content: "c".into(), rank: 1, line_len: 5, key: 2 };
    let d = FactEntry { content: "d".into(), rank: 2, line_len: 50, key: 3 };
    let budgeted = PromptInjector::budget_facts(vec![a, b, c, d], 20);
    let contents: Vec<&str> = budgeted.iter().map(|f| f.content.as_str()).collect();
    assert_eq!(contents, vec!["b", "a", "c"]);
    let keys: Vec<usize> = budgeted.iter().map(|f| f.key).collect();
    assert_eq!(keys, vec![1, 0, 2]);
}

#[test]
fn budget_lines_keeps_later_line_that_still_fits() {
    let kept = PromptInjector::budget_lines(&[10, 5, 20, 3], 20);
    assert_eq!(kept, vec![0, 1, 3]);
}

#[test]
fn budget_lines_of_nothing_is_nothing() {
    assert!(PromptInjector::budget_lines(&[], 2000).is_empty());
}

#[test]
fn word_overlap_counts_shared_and_all_words() {
    assert_eq!(word_overlap("user likes dark mode", "user likes light mode"), (3, 5));
    assert_eq!(word_overlap("  a  a b ", "b\tc"), (1, 3));
    assert_eq!(word_overlap("", " "), (0, 0));
}

#[test]
fn near_duplicate_needs_more_than_four_fifths() {
    assert!(near_duplicate("a b c d e", "e d c b a"));
    assert!(!near_duplicate("a b c d", "a b c d e"));
    assert!(!near_duplicate("a b c d e", "a b c d e f g h i j k l m n o p q r s t u v w x y z a"));
    assert!(near_duplicate("", "   "));
    assert!(!near_duplicate("dark mode", "Rust 2024 edition"));
}

#[test]
fn format_includes_header_and_fences() {
    let lines = vec![line("preference", "dark mode", 0.9)];
    let block = PromptInjector::format_fact_block(&lines, 2000);
    assert!(block.starts_with("---\n## Memory (your personal notes)"));
    assert!(block.ends_with("---"));
}

#[test]
fn format_shows_char_budget_in_header() {
    let lines = vec![line("fact", "x", 1.0)];
    let block = PromptInjector::format_fact_block(&lines, 500);
    assert!(block.contains("/ 500 chars"));
}

#[test]
fn format_block_exact_text() {
    let lines = vec![line("preference", "dark mode", 0.9), line("fact", "x", 1.0)];
    let block = PromptInjector::format_fact_block(&lines, MEMORY_BUDGET);
    assert_eq!(
        block,
        "---\n## Memory (your personal notes) [43 chars / 2000 chars]\npreference: dark mode (90%)\nfact: x (100%)\n---"
    );
}

fn words_from(lo: usize, hi: usize) -> String {
    (lo..=hi).map(|i| format!("w{i}")).collect::<Vec<_>>().join(" ")
}

#[test]
fn dedup_leaves_no_two_near_duplicates() {
    let a = fact("fact", &words_from(1, 10), 0.5);
    let b = fact("fact", &words_from(3, 12), 0.5);
    let c = fact("fact", &words_from(2, 11), 0.9);
    let deduped = PromptInjector::deduplicate_facts(vec![a, b, c]);
    let contents: Vec<&str> = deduped.iter().map(|f| f.content.as_str()).collect();
    assert_eq!(contents, vec![words_from(2, 11).as_str()]);
}

#[test]
fn word_sets_are_lowercased() {
    assert_eq!(word_overlap("Dark Mode", "dark mode"), (2, 2));
    assert!(near_duplicate("Dark Mode", "dark MODE"));
}

/// The memory block for facts given as (category, content, confidence).
fn inject(prompt: &str, facts: &[(&str, &str, f64)]) -> String {
    let lines: Vec<String> = facts.iter().map(|(c, t, f)| line(c, t, *f)).collect();
    let entries: Vec<FactEntry> = facts
        .iter()
        .enumerate()
        .map(|(key, (c, t, f))| FactEntry { key, ..fact(c, t, *f) })
        .collect();
    PromptInjector::inject_memory(prompt, entries, &lines)
}

#[test]
fn inject_returns_prompt_unchanged_when_no_facts() {
    let result = inject("You are helpful.", &[]);
    assert_eq!(result, "You are helpful.");
}

#[test]
fn inject_appends_memory_block() {
    let result = inject("You are helpful.", &[("preference", "dark mode", 0.9)]);
    assert!(result.contains("You are helpful."));
    assert!(result.contains("## Memory (your personal notes)"));
    assert!(result.contains("preference: dark mode"));
}

#[test]
fn inject_shows_category_confidence_format() {
    let result = inject("", &[("fact", "Rust 2024 edition", 1.0)]);
    assert!(result.contains("fact: Rust 2024 edition (100%)"));
}

#[test]
fn inject_multiple_facts_all_appear() {
    let result = inject(
        "base",
        &[
            ("preference", "dark mode", 0.9),
            ("environment", "Linux x86_64", 1.0),
            ("pattern", "snake_case naming", 0.8),
        ],
    );
    assert!(result.contains("preference: dark mode"));
    assert!(result.contains("environment: Linux x86_64"));
    assert!(result.contains("pattern: snake_case naming"));
}

#[test]
fn inject_exact_text_and_budget_overflow() {
    let result = inject("base", &[("fact", "x", 1.0)]);
    assert_eq!(
        result,
        "base\n\n---\n## Memory (your personal notes) [15 chars / 2000 chars]\nfact: x (100%)\n---"
    );
    let long = "y".repeat(2100);
    let result = inject("base", &[("fact", long.as_str(), 1.0)]);
    assert_eq!(result, "base");
    let result = inject("base", &[("fact", "x", 1.0), ("fact", "x", 0.5)]);
    assert_eq!(result.matches("fact: x").count(), 1);
    assert!(result.contains("(100%)"));
}
