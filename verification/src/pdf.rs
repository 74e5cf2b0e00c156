//! PDF documents: one section per page (or text chunk) with text.
use vstd::prelude::*;
use vstd::string::*;
use crate::text::{trim, trim_chars, owned};
use crate::split::{join_chars, strings_chars, join_with};
use crate::document::{
    DocumentParser,
    ParsedDocument, Section, SectionView, DocView, RagError, ErrorKind, Metadata, result_view,
    sections_view, section_view, doc_view, strs_chars,
};
use crate::paths::{stem, stem_spec, opt_str, decimal, decimal_string};

verus! {

/// A document loaded by `lopdf`.
#[verifier::external_type_specification]
#[verifier::external_body]
pub struct ExPdfDocument(lopdf::Document);

/// `lopdf::Document::load_mem`: the loaded document, or the error's text.
/// Nothing is claimed of which inputs load or of the error's text: the
/// loader reads objects in parallel, so the same bytes need not give the
/// same error, and malformed input can make it panic.
#[verifier::external_body]
fn load_pdf(input: &[u8]) -> (r: Result<lopdf::Document, String>) {
    match lopdf::Document::load_mem(input) {
        Ok(d) => Ok(d),
        Err(e) => Err(e.to_string()),
    }
}

/// Strictly ascending numbers.
pub open spec fn ascending(v: Seq<u32>) -> bool {
    forall|i: int, j: int| 0 <= i < j < v.len() ==> v[i] < v[j]
}

/// `doc.get_pages()`'s keys: the page numbers, which a `BTreeMap` yields in
/// ascending order, each once.
#[verifier::external_body]
fn page_numbers(doc: &lopdf::Document) -> (r: Vec<u32>)
    ensures
        ascending(r@),
{
    doc.get_pages().keys().cloned().collect()
}

/// `doc.extract_text_chunks(pages)`, each chunk's text or `None` where its
/// extraction failed.  How many chunks a page gives, and what they hold,
/// is `lopdf`'s affair and is left unsaid; malformed content streams can
/// make it panic.
#[verifier::external_body]
fn text_chunks(doc: &lopdf::Document, pages: &Vec<u32>) -> (r: Vec<Option<String>>) {
    doc.extract_text_chunks(pages).into_iter().map(|c| c.ok()).collect()
}

/// The label of chunk `i`: its page number, or `i + 1` past the pages.
pub open spec fn chunk_page(pages: Seq<u32>, i: int) -> u32 {
    if i < pages.len() {
        pages[i]
    } else {
        (i + 1) as u32
    }
}

/// The trimmed text of a chunk; empty where extraction failed.
pub open spec fn chunk_text(c: Option<Seq<char>>) -> Seq<char> {
    match c {
        Some(t) => trim_chars(t),
        None => seq![],
    }
}

/// The chunks `0..k` with text, as (page label, trimmed text).
pub open spec fn kept_chunks(pages: Seq<u32>, chunks: Seq<Option<Seq<char>>>, k: int) -> Seq<
    (u32, Seq<char>),
>
    decreases k,
{
    if k <= 0 || k > chunks.len() {
        seq![]
    } else {
        let rest = kept_chunks(pages, chunks, k - 1);
        let t = chunk_text(chunks[k - 1]);
        if t.len() == 0 {
            rest
        } else {
            rest.push((chunk_page(pages, k - 1), t))
        }
    }
}

/// The section of a kept chunk.
pub open spec fn page_section(p: (u32, Seq<char>)) -> SectionView {
    SectionView {
        heading: Some("Page "@ + decimal(p.0 as nat)),
        content: p.1,
        level: 1,
        start_line: 0,
        end_line: 0,
    }
}

/// The characters of each optional chunk.
pub open spec fn opt_strings_chars(v: Seq<Option<String>>) -> Seq<Option<Seq<char>>> {
    v.map_values(|c: Option<String>| crate::document::opt_chars(c))
}

/// The document for the page numbers and the text chunks extracted for them.
pub open spec fn pdf_doc(
    pages: Seq<u32>,
    chunks: Seq<Option<Seq<char>>>,
    filename: Option<Seq<char>>,
) -> DocView {
    let kept = kept_chunks(pages, chunks, chunks.len() as int);
    DocView {
        title: stem_spec(filename),
        content: join_chars(kept.map_values(|p: (u32, Seq<char>)| p.1), "\n\n"@),
        mime_type: "application/pdf"@,
        sections: kept.map_values(|p: (u32, Seq<char>)| page_section(p)),
        metadata: map!["parser"@ => "pdf"@, "pages"@ => decimal(pages.len())],
    }
}

/// Builds the document from the page numbers and the text chunks extracted
/// for them: a `Page n` section for each chunk with text.
pub fn pdf_document(pages: &Vec<u32>, chunks: &Vec<Option<String>>, filename: Option<&str>) -> (r:
    ParsedDocument)
    ensures
        doc_view(r) == pdf_doc(pages@, opt_strings_chars(chunks@), opt_str(filename)),
{
    let ghost cs = opt_strings_chars(chunks@);
    let mut sections: Vec<Section> = Vec::new();
    let mut all_text: Vec<String> = Vec::new();
    let mut i: usize = 0;
    proof {
        assert(sections_view(sections@) =~= Seq::<SectionView>::empty());
        assert(strings_chars(all_text@) =~= Seq::<Seq<char>>::empty());
        reveal_strlit("Page ");
    }
    while i < chunks.len()
        invariant
            i <= chunks@.len(),
            cs == opt_strings_chars(chunks@),
            sections_view(sections@) == kept_chunks(pages@, cs, i as int).map_values(
                |p: (u32, Seq<char>)| page_section(p),
            ),
            strings_chars(all_text@) == kept_chunks(pages@, cs, i as int).map_values(
                |p: (u32, Seq<char>)| p.1,
            ),
        decreases chunks@.len() - i,
    {
        let page: u32 = if i < pages.len() {
            pages[i]
        } else {
            (i + 1) as u32
        };
        let content = match &chunks[i] {
            Some(text) => owned(trim(text.as_str())),
            None => String::new(),
        };
        let ghost kept_before = kept_chunks(pages@, cs, i as int);
        proof {
            assert(cs[i as int] == crate::document::opt_chars(chunks@[i as int]));
            assert(content@ == chunk_text(cs[i as int]));
            assert(page == chunk_page(pages@, i as int));
        }
        if content.as_str().as_bytes().len() > 0 {
            let mut heading = String::from_str("Page ");
            heading.append(decimal_string(page as usize).as_str());
            let sec = Section {
                heading: Some(heading),
                content: content.clone(),
                level: 1,
                start_line: 0,
                end_line: 0,
            };
            let ghost sv = sections_view(sections@);
            let ghost tv = strings_chars(all_text@);
            all_text.push(content);
            sections.push(sec);
            proof {
                let kept = kept_chunks(pages@, cs, i + 1);
                assert(kept == kept_before.push((page, content@)));
                assert(sections_view(sections@) =~= sv.push(section_view(sec)));
                assert(section_view(sec) == page_section((page, content@)));
                assert(sections_view(sections@) =~= kept.map_values(
                    |p: (u32, Seq<char>)| page_section(p),
                ));
                assert(strings_chars(all_text@) =~= tv.push(content@));
                assert(strings_chars(all_text@) =~= kept.map_values(|p: (u32, Seq<char>)| p.1));
            }
        } else {
            proof {
                assert(content@.len() == 0);
                assert(kept_chunks(pages@, cs, i + 1) == kept_before);
            }
        }
        i = i + 1;
    }
    proof {
        reveal_strlit("\n\n");
        reveal_strlit("application/pdf");
        reveal_strlit("parser");
        reveal_strlit("pdf");
        reveal_strlit("pages");
    }
    let mut metadata = Metadata::new();
    metadata.insert(String::from_str("parser"), String::from_str("pdf"));
    metadata.insert(String::from_str("pages"), decimal_string(pages.len()));
    let doc = ParsedDocument {
        title: stem(filename),
        content: join_with(&all_text, "\n\n"),
        mime_type: String::from_str("application/pdf"),
        sections,
        metadata,
    };
    proof {
        let expect = pdf_doc(pages@, cs, opt_str(filename));
        assert(doc.metadata@ =~= expect.metadata);
    }
    doc
}

/// What the PDF parser may give for `input`: a PDF error (when `lopdf`
/// cannot load the bytes), or the document that `pdf_document` builds from
/// some ascending page numbers and text chunks (those that `lopdf` found).
pub open spec fn pdf_outcome(
    input: Seq<u8>,
    filename: Option<Seq<char>>,
    r: Result<DocView, (ErrorKind, Seq<char>)>,
) -> bool {
    match r {
        Err(e) => e.0 == ErrorKind::Pdf,
        Ok(d) => exists|
            pages: Seq<u32>,
            chunks: Seq<Option<Seq<char>>>,
        | ascending(pages) && d == #[trigger] pdf_doc(pages, chunks, filename),
    }
}

/// Parser for PDF files.
pub struct PdfParser;

impl DocumentParser for PdfParser {
    /// MIME types handled.
    fn mime_types(&self) -> (r: Vec<&'static str>)
        ensures
            strs_chars(r@) == seq!["application/pdf"@],
    {
        let mut v: Vec<&'static str> = Vec::new();
        v.push("application/pdf");
        proof {
            reveal_strlit("application/pdf");
            assert(strs_chars(v@) =~= seq!["application/pdf"@]);
        }
        v
    }

    /// File extensions handled.
    fn extensions(&self) -> (r: Vec<&'static str>)
        ensures
            strs_chars(r@) == seq!["pdf"@],
    {
        let mut v: Vec<&'static str> = Vec::new();
        v.push("pdf");
        proof {
            reveal_strlit("pdf");
            assert(strs_chars(v@) =~= seq!["pdf"@]);
        }
        v
    }

    /// Loads a PDF and makes a section of each page's text.
    fn parse(&self, input: &[u8], filename: Option<&str>) -> (r: Result<ParsedDocument, RagError>)
        ensures
            pdf_outcome(input@, opt_str(filename), result_view(r)),
    {
        let doc = match load_pdf(input) {
            Ok(d) => d,
            Err(m) => {
                return Err(RagError::Pdf(m));
            },
        };
        let pages = page_numbers(&doc);
        let chunks = text_chunks(&doc, &pages);
        let d = pdf_document(&pages, &chunks, filename);
        proof {
            let _ = pdf_doc(pages@, opt_strings_chars(chunks@), opt_str(filename));
        }
        Ok(d)
    }
}

} // verus!
