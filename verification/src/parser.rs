//! Choosing a document parser by file extension.
use vstd::prelude::*;
use vstd::string::*;
use crate::text::str_eq;
use crate::document::{DocumentParser, ParsedDocument, RagError, ErrorKind, DocView, result_view};
use crate::paths::{lower_ext, lower_extension, opt_str};
use crate::markdown::{MarkdownParser, md_spec};
use crate::html::{HtmlParser, html_spec};
use crate::code::{CodeParser, code_spec};
use crate::tabular::{TextParser, text_spec};
use crate::pdf::{PdfParser, pdf_outcome};

verus! {

/// The parsers a document can go to.
pub enum ParserKind {
    Markdown,
    Pdf,
    Html,
    Text,
    Code,
}

/// The parser for a lowercased extension; plain text when none matches.
pub open spec fn parser_for(ext: Option<Seq<char>>) -> ParserKind {
    match ext {
        Some(e) => if e == "md"@ || e == "markdown"@ || e == "mkd"@ {
            ParserKind::Markdown
        } else if e == "pdf"@ {
            ParserKind::Pdf
        } else if e == "html"@ || e == "htm"@ || e == "xhtml"@ {
            ParserKind::Html
        } else if e == "csv"@ || e == "json"@ || e == "txt"@ || e == "text"@ {
            ParserKind::Text
        } else if e == "rs"@ || e == "py"@ || e == "js"@ || e == "ts"@ || e == "go"@ || e
            == "java"@ || e == "c"@ || e == "cpp"@ || e == "cc"@ || e == "h"@ || e == "hpp"@
            || e == "toml"@ || e == "yaml"@ || e == "yml"@ {
            ParserKind::Code
        } else {
            ParserKind::Text
        },
        None => ParserKind::Text,
    }
}

/// What parsing `input` under `filename` gives: the outcome of the parser
/// that the extension selects.
pub open spec fn parse_outcome(
    input: Seq<u8>,
    filename: Option<Seq<char>>,
    r: Result<DocView, (ErrorKind, Seq<char>)>,
) -> bool {
    match parser_for(lower_ext(filename)) {
        ParserKind::Markdown => r == md_spec(input, filename),
        ParserKind::Pdf => pdf_outcome(input, filename, r),
        ParserKind::Html => r == html_spec(input, filename),
        ParserKind::Text => r == text_spec(input, filename),
        ParserKind::Code => r == code_spec(input, filename),
    }
}

/// Which parser a lowercased extension selects.
fn select_parser(ext: &Option<String>) -> (r: ParserKind)
    ensures
        r == parser_for(crate::document::opt_chars(*ext)),
{
    proof {
        reveal_strlit("md");
        reveal_strlit("markdown");
        reveal_strlit("mkd");
        reveal_strlit("pdf");
        reveal_strlit("html");
        reveal_strlit("htm");
        reveal_strlit("xhtml");
        reveal_strlit("csv");
        reveal_strlit("json");
        reveal_strlit("txt");
        reveal_strlit("text");
        reveal_strlit("rs");
        reveal_strlit("py");
        reveal_strlit("js");
        reveal_strlit("ts");
        reveal_strlit("go");
        reveal_strlit("java");
        reveal_strlit("c");
        reveal_strlit("cpp");
        reveal_strlit("cc");
        reveal_strlit("h");
        reveal_strlit("hpp");
        reveal_strlit("toml");
        reveal_strlit("yaml");
        reveal_strlit("yml");
    }
    let e = match ext {
        Some(e) => e.as_str(),
        None => {
            return ParserKind::Text;
        },
    };
    if str_eq(e, "md") || str_eq(e, "markdown") || str_eq(e, "mkd") {
        ParserKind::Markdown
    } else if str_eq(e, "pdf") {
        ParserKind::Pdf
    } else if str_eq(e, "html") || str_eq(e, "htm") || str_eq(e, "xhtml") {
        ParserKind::Html
    } else if str_eq(e, "csv") || str_eq(e, "json") || str_eq(e, "txt") || str_eq(e, "text") {
        ParserKind::Text
    } else if str_eq(e, "rs") || str_eq(e, "py") || str_eq(e, "js") || str_eq(e, "ts") || str_eq(
        e,
        "go",
    ) || str_eq(e, "java") || str_eq(e, "c") || str_eq(e, "cpp") || str_eq(e, "cc") || str_eq(
        e,
        "h",
    ) || str_eq(e, "hpp") || str_eq(e, "toml") || str_eq(e, "yaml") || str_eq(e, "yml") {
        ParserKind::Code
    } else {
        ParserKind::Text
    }
}

/// Parses a document with the parser its file extension selects
/// (case-insensitively); plain text when the extension is unknown or absent.
pub fn parse(input: &[u8], filename: Option<&str>) -> (r: Result<ParsedDocument, RagError>)
    requires
        input@.len() <= isize::MAX,
    ensures
        parse_outcome(input@, opt_str(filename), result_view(r)),
{
    let ext = lower_extension(filename);
    match select_parser(&ext) {
        ParserKind::Markdown => MarkdownParser.parse(input, filename),
        ParserKind::Pdf => PdfParser.parse(input, filename),
        ParserKind::Html => HtmlParser.parse(input, filename),
        ParserKind::Text => TextParser.parse(input, filename),
        ParserKind::Code => CodeParser.parse(input, filename),
    }
}

/// Parsing is a function of the input and the file name, whichever way it
/// is reached (`parse`, a registry, or the chosen parser directly), except
/// on the PDF path, where the text comes from `lopdf` and only its shape is
/// stated: two outcomes allowed for the same input are the same.
pub proof fn law_dispatch_same_result(
    input: Seq<u8>,
    filename: Option<Seq<char>>,
    r1: Result<DocView, (ErrorKind, Seq<char>)>,
    r2: Result<DocView, (ErrorKind, Seq<char>)>,
)
    requires
        parser_for(lower_ext(filename)) != ParserKind::Pdf,
        parse_outcome(input, filename, r1),
        parse_outcome(input, filename, r2),
    ensures
        r1 == r2,
{
}

/// Dispatches documents to the parser for their format.
pub struct ParserRegistry;

impl ParserRegistry {
    /// A registry.
    pub fn new() -> (r: Self)
        ensures
            r == ParserRegistry,
    {
        ParserRegistry
    }

    /// Parses a document with the parser its file extension selects.
    pub fn parse(&self, input: &[u8], filename: Option<&str>) -> (r: Result<
        ParsedDocument,
        RagError,
    >)
        requires
            input@.len() <= isize::MAX,
        ensures
            parse_outcome(input@, opt_str(filename), result_view(r)),
    {
        parse(input, filename)
    }
}

impl Default for ParserRegistry {
    fn default() -> (r: Self)
        ensures
            r == ParserRegistry,
    {
        ParserRegistry
    }
}

} // verus!
