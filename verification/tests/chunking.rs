use hyprcollab::chunker::ingest_outcome;
use hyprcollab::chunker::{chunk_document, ChunkerConfig};
use hyprcollab::document::{Metadata, ParsedDocument, Section};

fn make_doc(content: &str, sections: Vec<Section>) -> ParsedDocument {
    ParsedDocument {
        title: Some("Test".to_string()),
        content: content.to_string(),
        mime_type: "text/plain".to_string(),
        sections,
        metadata: Metadata::new(),
    }
}

fn default_cfg() -> ChunkerConfig {
    ChunkerConfig::default()
}

#[test]
fn chunker_empty_doc_no_chunks() {
    let doc = make_doc("", vec![]);
    let chunks = chunk_document(&doc, &default_cfg());
    assert!(chunks.is_empty());
}

#[test]
fn chunker_small_doc_single_chunk() {
    let doc = make_doc("Hello world.", vec![]);
    let chunks = chunk_document(&doc, &default_cfg());
    assert_eq!(chunks.len(), 1);
    assert_eq!(chunks[0].content, "Hello world.");
}

#[test]
fn chunker_large_doc_splits_into_multiple() {
    let long = "x".repeat(3000);
    let doc = make_doc(&long, vec![]);
    let cfg = ChunkerConfig { chunk_size: 1000, overlap: 0, separator: "\n\n".into() };
    let chunks = chunk_document(&doc, &cfg);
    assert!(chunks.len() >= 2, "expected ≥2 chunks, got {}", chunks.len());
    for c in &chunks {
        assert!(c.content.len() <= 1000);
    }
}

#[test]
fn chunker_overlap_produces_shared_content() {
    let para: String = "a".repeat(100);
    let text = [para.as_str(); 5].join("\n\n");
    let cfg = ChunkerConfig { chunk_size: 250, overlap: 150, separator: "\n\n".into() };
    let doc = make_doc(&text, vec![]);
    let chunks = chunk_document(&doc, &cfg);
    assert!(chunks.len() >= 2);
    let shared = chunks[0].content.lines().last().unwrap_or("").to_string();
    assert!(chunks[1].content.contains(shared.trim()));
}

#[test]
fn chunker_double_newline_separator_preferred() {
    let text = "para1\n\npara2\n\npara3";
    let cfg = ChunkerConfig { chunk_size: 20, overlap: 0, separator: "\n\n".into() };
    let doc = make_doc(text, vec![]);
    let chunks = chunk_document(&doc, &cfg);
    assert!(chunks.iter().any(|c| c.content.contains("para1")));
    assert!(chunks.iter().any(|c| c.content.contains("para2")));
}

#[test]
fn chunker_uuid_ids_are_unique() {
    let text = "line\n".repeat(200);
    let doc = make_doc(&text, vec![]);
    let cfg = ChunkerConfig { chunk_size: 100, overlap: 0, separator: "\n".into() };
    let chunks = chunk_document(&doc, &cfg);
    let ids: std::collections::HashSet<_> = chunks.iter().map(|c| c.id.clone()).collect();
    assert_eq!(ids.len(), chunks.len(), "chunk IDs must be unique");
}

#[test]
fn chunker_metadata_source_file() {
    let mut doc = make_doc("Content here.", vec![]);
    doc.metadata.insert("source_file".into(), "test.md".into());
    let chunks = chunk_document(&doc, &default_cfg());
    assert_eq!(chunks[0].metadata.source_file.as_deref(), Some("test.md"));
}

#[test]
fn chunker_metadata_section_heading_from_section() {
    let sec = Section {
        heading: Some("Introduction".into()),
        content: "Some content here.".into(),
        level: 1,
        start_line: 0,
        end_line: 5,
    };
    let doc = make_doc("", vec![sec]);
    let chunks = chunk_document(&doc, &default_cfg());
    assert_eq!(chunks[0].metadata.section_heading.as_deref(), Some("Introduction"));
}

#[test]
fn chunker_chunk_indices_are_sequential() {
    let text = "word ".repeat(500);
    let doc = make_doc(&text, vec![]);
    let cfg = ChunkerConfig { chunk_size: 200, overlap: 0, separator: " ".into() };
    let chunks = chunk_document(&doc, &cfg);
    assert!(chunks.len() >= 2);
    for (i, c) in chunks.iter().enumerate() {
        assert_eq!(c.metadata.chunk_index, i);
    }
}

#[test]
fn chunker_respects_custom_separator() {
    let text = "part1|part2|part3";
    let cfg = ChunkerConfig { chunk_size: 10, overlap: 0, separator: "|".into() };
    let doc = make_doc(text, vec![]);
    let chunks = chunk_document(&doc, &cfg);
    assert!(chunks.iter().any(|c| c.content == "part1"));
    assert!(chunks.iter().any(|c| c.content == "part2"));
    assert!(chunks.iter().any(|c| c.content == "part3"));
}

#[test]
fn chunker_sections_produce_per_section_chunks() {
    let sections = vec![
        Section { heading: Some("A".into()), content: "Content A.".into(), level: 1, start_line: 0, end_line: 2 },
        Section { heading: Some("B".into()), content: "Content B.".into(), level: 1, start_line: 2, end_line: 4 },
    ];
    let doc = make_doc("ignored", sections);
    let chunks = chunk_document(&doc, &default_cfg());
    assert_eq!(chunks.len(), 2);
    assert!(chunks.iter().any(|c| c.metadata.section_heading.as_deref() == Some("A")));
    assert!(chunks.iter().any(|c| c.metadata.section_heading.as_deref() == Some("B")));
}

#[test]
fn chunker_without_overlap_respects_chunk_size() {
    let text = "alpha beta gamma delta epsilon zeta eta theta iota kappa ".repeat(20);
    let cfg = ChunkerConfig { chunk_size: 37, overlap: 0, separator: " ".into() };
    let doc = make_doc(&text, vec![]);
    let chunks = chunk_document(&doc, &cfg);
    assert!(!chunks.is_empty());
    for c in &chunks {
        assert!(c.content.len() <= 37, "chunk of {} bytes", c.content.len());
    }
}

#[test]
fn chunker_force_split_cuts_on_char_boundaries() {
    let pieces = hyprcollab::chunker::force_split("ééééé", 3);
    assert_eq!(pieces, vec!["é".to_string(), "é".to_string(), "é".to_string(), "é".to_string(), "é".to_string()]);
}

#[test]
fn chunker_split_text_merges_small_pieces() {
    let cfg = ChunkerConfig { chunk_size: 11, overlap: 0, separator: "|".into() };
    let pieces = hyprcollab::chunker::split_text("ab|cd|ef|gh", &cfg);
    assert_eq!(pieces, vec!["ab|cd|ef|gh".to_string()]);
    let cfg = ChunkerConfig { chunk_size: 5, overlap: 0, separator: "|".into() };
    let pieces = hyprcollab::chunker::split_text("ab|cd|ef|gh", &cfg);
    assert_eq!(pieces, vec!["ab|cd".to_string(), "ef|gh".to_string()]);
}

#[test]
fn chunker_metadata_mime_and_lines() {
    let doc = make_doc("one\ntwo\nthree", vec![]);
    let chunks = chunk_document(&doc, &default_cfg());
    assert_eq!(chunks.len(), 1);
    assert_eq!(chunks[0].metadata.mime_type, "text/plain");
    assert_eq!(chunks[0].metadata.start_line, 0);
    assert_eq!(chunks[0].metadata.end_line, 3);
    assert_eq!(chunks[0].id.len(), 36);
}

#[test]
fn chunker_empty_separator_splits_by_character() {
    let cfg = ChunkerConfig { chunk_size: 3, overlap: 0, separator: "".into() };
    let pieces = hyprcollab::chunker::split_text("ab cd ef", &cfg);
    assert_eq!(pieces, vec!["abc".to_string(), "def".to_string()]);
}

#[test]
fn split_str_with_empty_separator_yields_each_character() {
    let pieces = hyprcollab::split::split_str("hé!", "");
    assert_eq!(pieces, vec!["", "h", "é", "!", ""]);
}

#[test]
fn merge_splits_drops_overlap_that_would_not_fit() {
    let splits = vec!["aaaaaaaa".to_string(), "bbbbbbbbb".to_string()];
    let merged = hyprcollab::chunker::merge_splits(&splits, " ", 10, 8);
    assert_eq!(merged, vec!["aaaaaaaa".to_string(), "bbbbbbbbb".to_string()]);
    assert!(merged.iter().all(|c| c.len() <= 10));
}

#[test]
fn merge_splits_keeps_overlap_that_fits() {
    let splits = vec!["aa".to_string(), "bb".to_string(), "cc".to_string()];
    let merged = hyprcollab::chunker::merge_splits(&splits, " ", 5, 2);
    assert_eq!(merged, vec!["aa bb".to_string(), "bb cc".to_string()]);
}

#[test]
fn chunker_splits_wide_characters_with_four_byte_chunks() {
    let cfg = ChunkerConfig { chunk_size: 4, overlap: 2, separator: "\n\n".into() };
    let text = "日本語 ééé 😀😀";
    let pieces = hyprcollab::chunker::split_text(text, &cfg);
    assert!(!pieces.is_empty());
    assert!(pieces.iter().all(|p| p.len() <= 4 && !p.is_empty()));
}

#[test]
fn force_split_pieces_rejoin() {
    let text = "aé日😀bc";
    let pieces = hyprcollab::chunker::force_split(text, 4);
    assert_eq!(pieces.concat(), text);
    assert!(pieces.iter().all(|p| 0 < p.len() && p.len() <= 4));
    let ascii = hyprcollab::chunker::force_split("abcdefghij", 3);
    assert_eq!(ascii, vec!["abc", "def", "ghi", "j"]);
    assert!(hyprcollab::chunker::force_split("", 3).is_empty());
}

#[test]
fn ingest_outcome_counts_and_mismatch() {
    let r = ingest_outcome(Some("Doc".to_string()), 0, 5).unwrap();
    assert_eq!((r.chunks_created, r.document_title.as_deref()), (0, Some("Doc")));
    let r = ingest_outcome(None, 3, 3).unwrap();
    assert_eq!(r.chunks_created, 3);
    assert_eq!(ingest_outcome(None, 3, 2).unwrap_err(), "embedding count 2 != chunk count 3");
}

#[test]
fn force_split_ascii_exact_pieces() {
    let pieces = hyprcollab::chunker::force_split("abcdef", 3);
    assert_eq!(pieces, vec!["abc", "def"]);
    let pieces = hyprcollab::chunker::force_split("abcde", 1);
    assert_eq!(pieces.len(), 5);
    assert!(pieces.iter().all(|p| p.len() == 1));
    let pieces = hyprcollab::chunker::force_split("hello world", 4);
    assert_eq!(pieces, vec!["hell", "o wo", "rld"]);
}
