use hyprcollab::code::{detect_language, CodeParser, CHUNK_LINES};
use hyprcollab::document::DocumentParser;
use hyprcollab::html::HtmlParser;
use hyprcollab::markdown::MarkdownParser;
use hyprcollab::pdf::PdfParser;
use hyprcollab::tabular::TextParser;

// ── code ──────────────────────────────────────────────────────────────────────

#[test]
fn language_rust_detected() {
    assert_eq!(detect_language(Some("main.rs")), "rust");
}

#[test]
fn language_python_detected() {
    assert_eq!(detect_language(Some("script.py")), "python");
}

#[test]
fn language_go_detected() {
    assert_eq!(detect_language(Some("server.go")), "go");
}

#[test]
fn short_file_single_section() {
    let code = b"fn main() {\n    println!(\"hello\");\n}";
    let doc = CodeParser.parse(code, Some("main.rs")).unwrap();
    assert_eq!(doc.sections.len(), 1);
    assert!(doc.sections[0].heading.is_none());
}

#[test]
fn long_file_multiple_chunks() {
    let line = "let x = 1;\n";
    let code: Vec<u8> = line.repeat(200).into_bytes();
    let doc = CodeParser.parse(&code, Some("many.rs")).unwrap();
    assert!(doc.sections.len() > 1, "expected multiple chunks");
}

#[test]
fn chunks_have_overlap() {
    let lines: Vec<String> = (0..120).map(|i| format!("line{}", i)).collect();
    let code = lines.join("\n").into_bytes();
    let doc = CodeParser.parse(&code, Some("big.rs")).unwrap();
    if doc.sections.len() >= 2 {
        assert!(doc.sections[1].start_line < CHUNK_LINES);
    }
}

#[test]
fn metadata_contains_language() {
    let doc = CodeParser.parse(b"x = 1", Some("script.py")).unwrap();
    assert_eq!(doc.metadata.get("language").map(String::as_str), Some("python"));
}

#[test]
fn title_is_filename() {
    let doc = CodeParser.parse(b"fn foo() {}", Some("lib.rs")).unwrap();
    assert_eq!(doc.title.as_deref(), Some("lib.rs"));
}

#[test]
fn invalid_utf8_returns_error() {
    let result = CodeParser.parse(b"\xff\xfe invalid", Some("bad.rs"));
    assert!(result.is_err());
}

#[test]
fn code_windows_are_fifty_lines_overlapping_by_five() {
    let lines: Vec<String> = (0..120).map(|i| format!("l{}", i)).collect();
    let code = lines.join("\n").into_bytes();
    let doc = CodeParser.parse(&code, Some("w.rs")).unwrap();
    let spans: Vec<(usize, usize)> = doc.sections.iter().map(|s| (s.start_line, s.end_line)).collect();
    assert_eq!(spans, vec![(0, 50), (45, 95), (90, 120)]);
    assert_eq!(doc.sections[1].heading.as_deref(), Some("Chunk 2"));
}

#[test]
fn code_without_filename_is_plain_text() {
    let doc = CodeParser.parse(b"x", None).unwrap();
    assert_eq!(doc.mime_type, "text/plain");
    assert_eq!(doc.metadata.get("language").map(String::as_str), Some("text"));
    assert!(doc.title.is_none());
}

// ── html ──────────────────────────────────────────────────────────────────────

#[test]
fn title_tag_extracted() {
    let html = b"<html><head><title>My Page</title></head><body></body></html>";
    let doc = HtmlParser.parse(html, None).unwrap();
    assert_eq!(doc.title.as_deref(), Some("My Page"));
}

#[test]
fn h1_becomes_title_fallback() {
    let html = b"<html><body><h1>Main Heading</h1><p>content</p></body></html>";
    let doc = HtmlParser.parse(html, None).unwrap();
    assert_eq!(doc.title.as_deref(), Some("Main Heading"));
}

#[test]
fn html_headings_create_sections() {
    let html = b"<html><body><h1>A</h1><p>para1</p><h2>B</h2><p>para2</p></body></html>";
    let doc = HtmlParser.parse(html, None).unwrap();
    assert!(doc.sections.len() >= 2);
}

#[test]
fn meta_tags_in_metadata() {
    let html = b"<html><head><meta name=\"author\" content=\"Alice\"></head><body></body></html>";
    let doc = HtmlParser.parse(html, None).unwrap();
    assert_eq!(doc.metadata.get("author").map(String::as_str), Some("Alice"));
}

#[test]
fn script_content_stripped() {
    let html = b"<html><body><script>evil()</script><p>Clean text.</p></body></html>";
    let doc = HtmlParser.parse(html, None).unwrap();
    assert!(!doc.content.contains("evil"));
    assert!(doc.content.contains("Clean text"));
}

#[test]
fn style_content_stripped() {
    let html = b"<html><head><style>.x{color:red}</style></head><body><p>Hi</p></body></html>";
    let doc = HtmlParser.parse(html, None).unwrap();
    assert!(!doc.content.contains("color"));
}

#[test]
fn mime_type_is_html() {
    let doc = HtmlParser.parse(b"<p>hi</p>", None).unwrap();
    assert_eq!(doc.mime_type, "text/html");
}

#[test]
fn filename_fallback_when_no_title() {
    let doc = HtmlParser.parse(b"<p>no title</p>", Some("about.html")).unwrap();
    assert_eq!(doc.title.as_deref(), Some("about"));
}

// ── markdown ──────────────────────────────────────────────────────────────────

#[test]
fn title_extracted_from_h1() {
    let md = b"# Hello World\n\nSome paragraph.";
    let doc = MarkdownParser.parse(md, None).unwrap();
    assert_eq!(doc.title.as_deref(), Some("Hello World"));
}

#[test]
fn fallback_title_from_filename() {
    let md = b"No heading here.";
    let doc = MarkdownParser.parse(md, Some("notes.md")).unwrap();
    assert_eq!(doc.title.as_deref(), Some("notes"));
}

#[test]
fn markdown_headings_create_sections() {
    let md = b"# Section A\n\nContent A.\n\n## Section B\n\nContent B.";
    let doc = MarkdownParser.parse(md, None).unwrap();
    assert!(doc.sections.len() >= 2);
    let h1 = doc.sections.iter().find(|s| s.level == 1).unwrap();
    assert_eq!(h1.heading.as_deref(), Some("Section A"));
    let h2 = doc.sections.iter().find(|s| s.level == 2).unwrap();
    assert_eq!(h2.heading.as_deref(), Some("Section B"));
}

#[test]
fn code_block_with_language_preserved() {
    let md = b"# Title\n\n```rust\nfn main() {}\n```\n";
    let doc = MarkdownParser.parse(md, None).unwrap();
    let code_section = doc.sections.iter().find(|s| s.content.contains("fn main")).unwrap();
    assert!(code_section.content.contains("```rust"));
}

#[test]
fn inline_code_backtick_preserved() {
    let md = b"Use `cargo build` to compile.";
    let doc = MarkdownParser.parse(md, None).unwrap();
    assert!(doc.content.contains("`cargo build`"));
}

#[test]
fn multiple_heading_levels() {
    let md = b"# H1\n\n## H2\n\n### H3\n\n#### H4\n\n##### H5\n\n###### H6";
    let doc = MarkdownParser.parse(md, None).unwrap();
    let levels: Vec<u8> = doc.sections.iter().map(|s| s.level).collect();
    assert!(levels.contains(&1));
    assert!(levels.contains(&2));
    assert!(levels.contains(&3));
}

#[test]
fn empty_input_returns_empty_doc() {
    let doc = MarkdownParser.parse(b"", None).unwrap();
    assert!(doc.sections.is_empty());
    assert!(doc.content.is_empty());
}

#[test]
fn mime_type_is_markdown() {
    let doc = MarkdownParser.parse(b"hello", None).unwrap();
    assert_eq!(doc.mime_type, "text/markdown");
}

#[test]
fn markdown_invalid_utf8_is_encoding_error() {
    let err = MarkdownParser.parse(b"\xc3\x28", None).unwrap_err();
    assert!(err.message().starts_with("encoding: "));
}

// ── pdf ───────────────────────────────────────────────────────────────────────

#[test]
fn invalid_bytes_return_error() {
    let result = PdfParser.parse(b"not a pdf", None);
    assert!(result.is_err());
}

#[test]
fn empty_bytes_return_error() {
    let result = PdfParser.parse(b"", None);
    assert!(result.is_err());
}

#[test]
fn mime_type_is_pdf() {
    assert!(PdfParser.mime_types().contains(&"application/pdf"));
}

#[test]
fn extension_is_pdf() {
    assert!(PdfParser.extensions().contains(&"pdf"));
}

#[test]
fn error_message_is_non_empty_on_bad_input() {
    let err = PdfParser.parse(b"%not-pdf", None).unwrap_err();
    assert!(!err.message().is_empty());
}

#[test]
fn pdf_document_labels_pages_and_skips_empty_chunks() {
    let pages = vec![1u32, 2, 3];
    let chunks = vec![Some("  first  ".to_string()), None, Some("third".to_string()), Some("extra".to_string())];
    let doc = hyprcollab::pdf::pdf_document(&pages, &chunks, Some("report.pdf"));
    let headings: Vec<Option<String>> = doc.sections.iter().map(|s| s.heading.clone()).collect();
    assert_eq!(headings, vec![Some("Page 1".to_string()), Some("Page 3".to_string()), Some("Page 4".to_string())]);
    assert_eq!(doc.content, "first\n\nthird\n\nextra");
    assert_eq!(doc.metadata.get("pages").map(String::as_str), Some("3"));
    assert_eq!(doc.metadata.get("parser").map(String::as_str), Some("pdf"));
    assert_eq!(doc.title.as_deref(), Some("report"));
}

// ── text, csv, json ───────────────────────────────────────────────────────────

#[test]
fn plain_splits_on_double_newline() {
    let text = b"Para one.\n\nPara two.\n\nPara three.";
    let doc = TextParser.parse(text, Some("notes.txt")).unwrap();
    assert_eq!(doc.sections.len(), 3);
}

#[test]
fn plain_single_paragraph() {
    let text = b"Just one paragraph.";
    let doc = TextParser.parse(text, None).unwrap();
    assert_eq!(doc.sections.len(), 1);
    assert_eq!(doc.sections[0].content, "Just one paragraph.");
}

#[test]
fn plain_empty_input() {
    let doc = TextParser.parse(b"", None).unwrap();
    assert!(doc.sections.is_empty());
}

#[test]
fn plain_mime_type() {
    let doc = TextParser.parse(b"hello", None).unwrap();
    assert_eq!(doc.mime_type, "text/plain");
}

#[test]
fn plain_line_spans() {
    let doc = TextParser.parse(b"a\nb\n\n\n\nc", None).unwrap();
    let spans: Vec<(usize, usize)> = doc.sections.iter().map(|s| (s.start_line, s.end_line)).collect();
    assert_eq!(spans, vec![(0, 2), (5, 6)]);
    assert_eq!(doc.metadata.get("parser").map(String::as_str), Some("text"));
}

#[test]
fn csv_headers_extracted() {
    let csv = b"name,age,city\nAlice,30,Berlin\nBob,25,London\n";
    let doc = TextParser.parse(csv, Some("data.csv")).unwrap();
    assert_eq!(doc.metadata.get("columns").map(String::as_str), Some("name, age, city"));
    assert_eq!(doc.metadata.get("row_count").map(String::as_str), Some("2"));
}

#[test]
fn csv_sections_headers_and_data() {
    let csv = b"x,y\n1,2\n3,4\n";
    let doc = TextParser.parse(csv, Some("points.csv")).unwrap();
    assert_eq!(doc.sections.len(), 2);
    assert_eq!(doc.sections[0].heading.as_deref(), Some("Headers"));
    assert_eq!(doc.sections[1].heading.as_deref(), Some("Data"));
}

#[test]
fn csv_mime_type() {
    let doc = TextParser.parse(b"a,b\n1,2\n", Some("f.csv")).unwrap();
    assert_eq!(doc.mime_type, "text/csv");
}

#[test]
fn csv_headers_only_no_data_section() {
    let csv = b"col1,col2\n";
    let doc = TextParser.parse(csv, Some("empty.csv")).unwrap();
    assert_eq!(doc.sections.len(), 1);
}

#[test]
fn csv_content_and_spans() {
    let doc = TextParser.parse(b"x,y\n1,2\n3,4\n", Some("p.csv")).unwrap();
    assert_eq!(doc.content, "x,y\n1,2\n3,4");
    assert_eq!(doc.sections[1].content, "1,2\n3,4");
    assert_eq!((doc.sections[1].start_line, doc.sections[1].end_line), (1, 3));
}

#[test]
fn csv_ragged_rows_are_csv_error() {
    let err = TextParser.parse(b"a,b\n1,2,3\n", Some("bad.csv")).unwrap_err();
    assert!(err.message().starts_with("CSV: "));
}

#[test]
fn json_object_sections_per_key() {
    let json = b"{\"name\":\"Alice\",\"age\":30}";
    let doc = TextParser.parse(json, Some("user.json")).unwrap();
    assert!(doc.sections.iter().any(|s| s.heading.as_deref() == Some("name")));
    assert!(doc.sections.iter().any(|s| s.heading.as_deref() == Some("age")));
}

#[test]
fn json_array_single_section() {
    let json = b"[1,2,3]";
    let doc = TextParser.parse(json, Some("nums.json")).unwrap();
    assert_eq!(doc.sections.len(), 1);
    assert!(doc.sections[0].heading.is_none());
}

#[test]
fn json_invalid_returns_error() {
    let result = TextParser.parse(b"{invalid}", Some("bad.json"));
    assert!(result.is_err());
}

#[test]
fn json_mime_type() {
    let doc = TextParser.parse(b"{}", Some("f.json")).unwrap();
    assert_eq!(doc.mime_type, "application/json");
}

#[test]
fn json_keys_in_sorted_order_with_line_spans() {
    let doc = TextParser.parse(b"{\"b\":[1,2],\"a\":1}", Some("k.json")).unwrap();
    let heads: Vec<String> = doc.sections.iter().map(|s| s.heading.clone().unwrap()).collect();
    assert_eq!(heads, vec!["a".to_string(), "b".to_string()]);
    assert_eq!((doc.sections[0].start_line, doc.sections[0].end_line), (0, 1));
    assert_eq!((doc.sections[1].start_line, doc.sections[1].end_line), (2, 6));
    assert_eq!(doc.sections[1].content, "[\n  1,\n  2\n]");
}

#[test]
fn json_array_spans_all_pretty_lines() {
    let doc = TextParser.parse(b"[1,2,3]", Some("n.json")).unwrap();
    assert_eq!(doc.content, "[\n  1,\n  2,\n  3\n]");
    assert_eq!(doc.sections[0].end_line, 5);
}
