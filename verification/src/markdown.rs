//! Markdown documents: sections at headings, with code blocks fenced again
//! and inline code kept in backticks.
use vstd::prelude::*;
use vstd::utf8::*;
use vstd::string::*;
use pulldown_cmark::{CodeBlockKind, Event, Options, Parser, Tag, TagEnd};
use crate::text::{bytes_of, trim, trim_chars, utf8_str, utf8_error_text, owned, count_newlines, nl_count};
use crate::split::{join_strings, join, strings_bytes, join_chars, strings_chars, join_with};
use crate::document::{
    DocumentParser,
    strs_chars,
    ParsedDocument, Section, SectionView, DocView, RagError, ErrorKind, result_view, sections_view,
    metadata_with, opt_chars,
};
use crate::paths::{stem, stem_spec, opt_str};

verus! {

broadcast use {vstd::utf8::encode_utf8_valid_utf8, vstd::utf8::encode_utf8_decode_utf8};

/// The parser events the section builder reacts to.
pub enum MdEvent {
    /// Start of a heading of the given level (1 to 6).
    StartHeading(u8),
    EndHeading,
    /// Start of a code block: the info string of a fenced block (possibly
    /// empty), or `None` for an indented block.
    StartCodeBlock(Option<String>),
    EndCodeBlock,
    Text(String),
    Code(String),
    SoftBreak,
    HardBreak,
    /// Any other event.
    Other,
}

/// Abstract value of an event.
pub enum MdEventView {
    StartHeading(u8),
    EndHeading,
    StartCodeBlock(Option<Seq<char>>),
    EndCodeBlock,
    Text(Seq<char>),
    Code(Seq<char>),
    SoftBreak,
    HardBreak,
    Other,
}

/// The abstract value of an event.
pub open spec fn md_view(e: MdEvent) -> MdEventView {
    match e {
        MdEvent::StartHeading(l) => MdEventView::StartHeading(l),
        MdEvent::EndHeading => MdEventView::EndHeading,
        MdEvent::StartCodeBlock(k) => MdEventView::StartCodeBlock(opt_chars(k)),
        MdEvent::EndCodeBlock => MdEventView::EndCodeBlock,
        MdEvent::Text(s) => MdEventView::Text(s@),
        MdEvent::Code(s) => MdEventView::Code(s@),
        MdEvent::SoftBreak => MdEventView::SoftBreak,
        MdEvent::HardBreak => MdEventView::HardBreak,
        MdEvent::Other => MdEventView::Other,
    }
}

/// The abstract values of a list of events.
pub open spec fn md_views(v: Seq<MdEvent>) -> Seq<MdEventView> {
    v.map_values(|e: MdEvent| md_view(e))
}

/// The events `pulldown_cmark::Parser::new_ext(text, Options::all())`
/// yields for `text`.
pub uninterp spec fn markdown_event_list(text: Seq<char>) -> Seq<MdEventView>;

/// Runs the CommonMark parser (all extensions on) and records its events.
#[verifier::external_body]
pub(crate) fn markdown_events(text: &str) -> (r: Vec<MdEvent>)
    ensures
        md_views(r@) == markdown_event_list(text@),
{
    Parser::new_ext(text, Options::all()).map(|event| match event {
        Event::Start(Tag::Heading { level, .. }) => MdEvent::StartHeading(level as u8),
        Event::End(TagEnd::Heading(_)) => MdEvent::EndHeading,
        Event::Start(Tag::CodeBlock(CodeBlockKind::Fenced(lang))) => MdEvent::StartCodeBlock(Some(lang.to_string())),
        Event::Start(Tag::CodeBlock(CodeBlockKind::Indented)) => MdEvent::StartCodeBlock(None),
        Event::End(TagEnd::CodeBlock) => MdEvent::EndCodeBlock,
        Event::Text(t) => MdEvent::Text(t.to_string()),
        Event::Code(c) => MdEvent::Code(c.to_string()),
        Event::SoftBreak => MdEvent::SoftBreak,
        Event::HardBreak => MdEvent::HardBreak,
        _ => MdEvent::Other,
    }).collect()
}

/// State of the section builder.
pub struct MdState {
    pub title: Option<Seq<char>>,
    pub sections: Seq<SectionView>,
    pub all_content: Seq<Seq<char>>,
    pub acc_heading: Option<(Seq<char>, u8)>,
    pub acc_content: Seq<char>,
    pub acc_start: int,
    pub in_heading: Option<u8>,
    pub heading_text: Seq<char>,
    pub in_code: bool,
    pub code_lang: Option<Seq<char>>,
    pub code_buf: Seq<char>,
    pub line: int,
}

/// State before the first event.
pub open spec fn md_init() -> MdState {
    MdState {
        title: None,
        sections: seq![],
        all_content: seq![],
        acc_heading: None,
        acc_content: seq![],
        acc_start: 0,
        in_heading: None,
        heading_text: seq![],
        in_code: false,
        code_lang: None,
        code_buf: seq![],
        line: 0,
    }
}

/// Closes the section being gathered (unless it has neither heading nor
/// content) at `end_line`.
pub open spec fn md_flush(s: MdState, end_line: int) -> MdState {
    let content = trim_chars(s.acc_content);
    if content.len() == 0 && s.acc_heading is None {
        s
    } else {
        let heading = match s.acc_heading {
            Some(h) => Some(h.0),
            None => None,
        };
        let level: u8 = match s.acc_heading {
            Some(h) => h.1,
            None => 0,
        };
        let all2 = match heading {
            Some(h) => s.all_content.push(h + "\n"@ + content),
            None => if content.len() > 0 {
                s.all_content.push(content)
            } else {
                s.all_content
            },
        };
        MdState {
            sections: s.sections.push(
                SectionView {
                    heading,
                    content,
                    level,
                    start_line: s.acc_start,
                    end_line,
                },
            ),
            all_content: all2,
            acc_heading: None,
            acc_content: seq![],
            acc_start: end_line,
            ..s
        }
    }
}

/// Reaction to one event.
pub open spec fn md_step(s: MdState, e: MdEventView) -> MdState {
    match e {
        MdEventView::StartHeading(level) => {
            let f = md_flush(s, s.line);
            MdState { in_heading: Some(level), heading_text: seq![], ..f }
        },
        MdEventView::EndHeading => {
            let lvl: u8 = match s.in_heading {
                Some(l) => l,
                None => 1,
            };
            let h = trim_chars(s.heading_text);
            MdState {
                in_heading: None,
                title: if s.title is None && lvl == 1 {
                    Some(h)
                } else {
                    s.title
                },
                acc_heading: Some((h, lvl)),
                acc_start: s.line,
                heading_text: seq![],
                ..s
            }
        },
        MdEventView::StartCodeBlock(kind) => MdState {
            in_code: true,
            code_lang: match kind {
                Some(l) => if l.len() == 0 {
                    None
                } else {
                    Some(l)
                },
                None => None,
            },
            code_buf: seq![],
            ..s
        },
        MdEventView::EndCodeBlock => {
            let fence = match s.code_lang {
                Some(l) => l,
                None => seq![],
            };
            MdState {
                in_code: false,
                acc_content: s.acc_content + "```"@ + fence + "\n"@ + s.code_buf + "```\n"@,
                code_buf: seq![],
                code_lang: None,
                ..s
            }
        },
        MdEventView::Text(t) => {
            let line2 = s.line + nl_count(bytes_of(t));
            if s.in_heading is Some {
                MdState { line: line2, heading_text: s.heading_text + t, ..s }
            } else if s.in_code {
                MdState { line: line2, code_buf: s.code_buf + t, ..s }
            } else {
                MdState { line: line2, acc_content: s.acc_content + t, ..s }
            }
        },
        MdEventView::Code(c) => if s.in_heading is Some {
            MdState { heading_text: s.heading_text + c, ..s }
        } else {
            MdState { acc_content: s.acc_content + "`"@ + c + "`"@, ..s }
        },
        MdEventView::SoftBreak => if s.in_heading is None && !s.in_code {
            MdState { acc_content: s.acc_content + "\n"@, ..s }
        } else {
            s
        },
        MdEventView::HardBreak => if s.in_heading is None && !s.in_code {
            MdState { acc_content: s.acc_content + "\n"@, ..s }
        } else {
            s
        },
        MdEventView::Other => s,
    }
}

/// A soft line break counts as a line break: outside headings and code
/// blocks it adds exactly one line feed to the section's text and changes
/// nothing else, and everywhere it acts as a hard line break does.
pub proof fn law_soft_break_is_line_feed(s: MdState)
    ensures
        md_step(s, MdEventView::SoftBreak) == md_step(s, MdEventView::HardBreak),
        (s.in_heading is None && !s.in_code) ==> md_step(s, MdEventView::SoftBreak) == (MdState {
            acc_content: s.acc_content.push('\n'),
            ..s
        }),
{
    assert("\n"@ =~= seq!['\n']) by {
        reveal_strlit("\n");
    }
    assert(s.acc_content + seq!['\n'] =~= s.acc_content.push('\n'));
}

/// The lines of a paragraph are kept apart: text `a`, a line break and
/// text `b` outside headings and code blocks add `a`, a line feed and `b`
/// to the section's text.
pub proof fn law_paragraph_lines(s: MdState, a: Seq<char>, b: Seq<char>)
    requires
        (s.in_heading is None),
        !s.in_code,
    ensures
        md_fold(seq![MdEventView::Text(a), MdEventView::SoftBreak, MdEventView::Text(b)], 0, s).acc_content
            == s.acc_content + a + seq!['\n'] + b,
{
    let evs = seq![MdEventView::Text(a), MdEventView::SoftBreak, MdEventView::Text(b)];
    let s1 = md_step(s, evs[0]);
    let s2 = md_step(s1, evs[1]);
    let s3 = md_step(s2, evs[2]);
    assert(md_fold(evs, 3, s3) == s3);
    assert(md_fold(evs, 2, s2) == s3);
    assert(md_fold(evs, 1, s1) == s3);
    assert(md_fold(evs, 0, s) == s3);
    law_soft_break_is_line_feed(s1);
    assert(s1.acc_content + seq!['\n'] =~= s1.acc_content.push('\n'));
    assert(s.acc_content + a + seq!['\n'] + b =~= s3.acc_content);
}

/// State after events `evs[k..]`.
pub open spec fn md_fold(evs: Seq<MdEventView>, k: int, s: MdState) -> MdState
    decreases evs.len() - k,
{
    if k < 0 || k >= evs.len() {
        s
    } else {
        md_fold(evs, k + 1, md_step(s, evs[k]))
    }
}

/// Line feeds in the text events `evs[k..]`.
pub open spec fn text_newlines(evs: Seq<MdEventView>, k: int) -> int
    decreases evs.len() - k,
{
    if k < 0 || k >= evs.len() {
        0
    } else {
        text_newlines(evs, k + 1) + match evs[k] {
            MdEventView::Text(t) => nl_count(bytes_of(t)),
            _ => 0,
        }
    }
}

/// The document built from a list of events.
pub open spec fn md_doc(evs: Seq<MdEventView>, filename: Option<Seq<char>>) -> DocView {
    let s0 = md_fold(evs, 0, md_init());
    let s = md_flush(s0, s0.line);
    DocView {
        title: match s.title {
            Some(t) => Some(t),
            None => stem_spec(filename),
        },
        content: join_chars(s.all_content, "\n\n"@),
        mime_type: "text/markdown"@,
        sections: s.sections,
        metadata: map!["parser"@ => "markdown"@],
    }
}

/// What the Markdown parser gives for any input.
pub open spec fn md_spec(input: Seq<u8>, filename: Option<Seq<char>>) -> Result<
    DocView,
    (ErrorKind, Seq<char>),
> {
    if !valid_utf8(input) {
        Err((ErrorKind::Encoding, utf8_error_text(input)))
    } else {
        let evs = markdown_event_list(decode_utf8(input));
        if text_newlines(evs, 0) > usize::MAX {
            Err((ErrorKind::Parse, "line count overflow"@))
        } else {
            Ok(md_doc(evs, filename))
        }
    }
}

/// Executable state of the section builder.
struct SectionAcc {
    title: Option<String>,
    sections: Vec<Section>,
    all_content: Vec<String>,
    acc_heading: Option<(String, u8)>,
    acc_content: String,
    acc_start: usize,
    in_heading: Option<u8>,
    heading_text: String,
    in_code: bool,
    code_lang: Option<String>,
    code_buf: String,
    line: usize,
}

spec fn heading_view(h: Option<(String, u8)>) -> Option<(Seq<char>, u8)> {
    match h {
        Some(p) => Some((p.0@, p.1)),
        None => None,
    }
}

impl SectionAcc {
    spec fn view(&self) -> MdState {
        MdState {
            title: opt_chars(self.title),
            sections: sections_view(self.sections@),
            all_content: strings_chars(self.all_content@),
            acc_heading: heading_view(self.acc_heading),
            acc_content: self.acc_content@,
            acc_start: self.acc_start as int,
            in_heading: self.in_heading,
            heading_text: self.heading_text@,
            in_code: self.in_code,
            code_lang: opt_chars(self.code_lang),
            code_buf: self.code_buf@,
            line: self.line as int,
        }
    }

    fn new() -> (r: Self)
        ensures
            r.view() == md_init(),
    {
        let r = SectionAcc {
            title: None,
            sections: Vec::new(),
            all_content: Vec::new(),
            acc_heading: None,
            acc_content: String::new(),
            acc_start: 0,
            in_heading: None,
            heading_text: String::new(),
            in_code: false,
            code_lang: None,
            code_buf: String::new(),
            line: 0,
        };
        proof {
            assert(sections_view(r.sections@) =~= Seq::<SectionView>::empty());
            assert(strings_chars(r.all_content@) =~= Seq::<Seq<char>>::empty());
        }
        r
    }

    fn flush(&mut self, end_line: usize)
        ensures
            final(self).view() == md_flush(old(self).view(), end_line as int),
    {
        let content = owned(trim(self.acc_content.as_str()));
        if content.as_str().is_empty() && self.acc_heading.is_none() {
            return;
        }
        let (heading, level) = match self.acc_heading.take() {
            Some((h, l)) => (Some(h), l),
            None => (None, 0u8),
        };
        let ghost all0 = strings_chars(self.all_content@);
        match &heading {
            Some(h) => {
                let mut line = h.clone();
                line.append("\n");
                line.append(content.as_str());
                self.all_content.push(line);
                proof {
                    reveal_strlit("\n");
                    assert(strings_chars(self.all_content@) =~= all0.push(h@ + "\n"@ + content@));
                }
            },
            None => {
                if !content.as_str().is_empty() {
                    self.all_content.push(content.clone());
                    proof {
                        assert(strings_chars(self.all_content@) =~= all0.push(content@));
                    }
                }
            },
        }
        let ghost secs0 = sections_view(self.sections@);
        let sec = Section {
            heading,
            content,
            level,
            start_line: self.acc_start,
            end_line,
        };
        self.sections.push(sec);
        proof {
            assert(sections_view(self.sections@) =~= secs0.push(crate::document::section_view(sec)));
        }
        self.acc_content = String::new();
        self.acc_start = end_line;
    }

    fn step(&mut self, e: &MdEvent)
        requires
            md_view(*e) matches MdEventView::Text(t) ==> old(self).line + nl_count(bytes_of(t))
                <= usize::MAX,
        ensures
            final(self).view() == md_step(old(self).view(), md_view(*e)),
    {
        match e {
            MdEvent::StartHeading(level) => {
                let l = self.line;
                self.flush(l);
                self.in_heading = Some(*level);
                self.heading_text = String::new();
            },
            MdEvent::EndHeading => {
                let lvl = match self.in_heading.take() {
                    Some(l) => l,
                    None => 1u8,
                };
                let h = owned(trim(self.heading_text.as_str()));
                if self.title.is_none() && lvl == 1 {
                    self.title = Some(h.clone());
                }
                self.acc_heading = Some((h, lvl));
                self.acc_start = self.line;
                self.heading_text = String::new();
            },
            MdEvent::StartCodeBlock(kind) => {
                self.in_code = true;
                self.code_lang = match kind {
                    Some(l) => if l.as_str().is_empty() {
                        None
                    } else {
                        Some(l.clone())
                    },
                    None => None,
                };
                self.code_buf = String::new();
            },
            MdEvent::EndCodeBlock => {
                self.in_code = false;
                let fence: &str = match &self.code_lang {
                    Some(l) => l.as_str(),
                    None => "",
                };
                proof {
                    reveal_strlit("");
                    reveal_strlit("```");
                    reveal_strlit("\n");
                    reveal_strlit("```\n");
                }
                let mut block = String::from_str("```");
                block.append(fence);
                block.append("\n");
                block.append(self.code_buf.as_str());
                block.append("```\n");
                self.acc_content.append(block.as_str());
                proof {
                    assert(self.acc_content@ =~= old(self).acc_content@ + "```"@ + fence@ + "\n"@
                        + old(self).code_buf@ + "```\n"@);
                }
                self.code_buf = String::new();
                self.code_lang = None;
            },
            MdEvent::Text(t) => {
                let n = count_newlines(t.as_str());
                self.line = self.line + n;
                if self.in_heading.is_some() {
                    self.heading_text.append(t.as_str());
                } else if self.in_code {
                    self.code_buf.append(t.as_str());
                } else {
                    self.acc_content.append(t.as_str());
                }
            },
            MdEvent::Code(c) => {
                proof {
                    reveal_strlit("`");
                }
                if self.in_heading.is_some() {
                    self.heading_text.append(c.as_str());
                } else {
                    self.acc_content.append("`");
                    self.acc_content.append(c.as_str());
                    self.acc_content.append("`");
                }
            },
            MdEvent::SoftBreak | MdEvent::HardBreak => {
                proof {
                    reveal_strlit("\n");
                }
                if self.in_heading.is_none() && !self.in_code {
                    self.acc_content.append("\n");
                }
            },
            MdEvent::Other => {},
        }
    }
}

/// Builds the document from the parser events: a new section at every
/// heading, the first level-1 heading as title (else the file stem).
pub fn markdown_document(events: &Vec<MdEvent>, filename: Option<&str>) -> (r: ParsedDocument)
    requires
        text_newlines(md_views(events@), 0) <= usize::MAX,
    ensures
        crate::document::doc_view(r) == md_doc(md_views(events@), opt_str(filename)),
{
    let ghost evs = md_views(events@);
    let mut acc = SectionAcc::new();
    let mut k: usize = 0;
    while k < events.len()
        invariant
            evs == md_views(events@),
            k <= evs.len(),
            acc.view().line + text_newlines(evs, k as int) <= usize::MAX,
            md_fold(evs, 0, md_init()) == md_fold(evs, k as int, acc.view()),
        decreases evs.len() - k,
    {
        proof {
            assert(evs[k as int] == md_view(events@[k as int]));
            lemma_text_newlines_nonneg(evs, k + 1);
        }
        acc.step(&events[k]);
        k = k + 1;
    }
    let l = acc.line;
    acc.flush(l);
    proof {
        reveal_strlit("\n\n");
        reveal_strlit("parser");
        reveal_strlit("markdown");
        reveal_strlit("text/markdown");
    }
    let content = join_with(&acc.all_content, "\n\n");
    let title = match acc.title {
        Some(t) => Some(t),
        None => stem(filename),
    };
    let doc = ParsedDocument {
        title,
        content,
        mime_type: String::from_str("text/markdown"),
        sections: acc.sections,
        metadata: metadata_with("parser", "markdown"),
    };
    doc
}

proof fn lemma_text_newlines_nonneg(evs: Seq<MdEventView>, k: int)
    ensures
        text_newlines(evs, k) >= 0,
    decreases evs.len() - k,
{
    if 0 <= k < evs.len() {
        lemma_text_newlines_nonneg(evs, k + 1);
        match evs[k] {
            MdEventView::Text(t) => crate::text::lemma_nl_count_le(bytes_of(t)),
            _ => {},
        }
    }
}

fn text_newline_total(events: &Vec<MdEvent>) -> (r: Option<usize>)
    ensures
        r is Some <==> text_newlines(md_views(events@), 0) <= usize::MAX,
{
    let ghost evs = md_views(events@);
    let mut total: usize = 0;
    let mut k = events.len();
    proof {
        lemma_text_newlines_nonneg(evs, 0);
    }
    while k > 0
        invariant
            evs == md_views(events@),
            k <= evs.len(),
            total == text_newlines(evs, k as int),
        decreases k,
    {
        k = k - 1;
        proof {
            assert(evs[k as int] == md_view(events@[k as int]));
        }
        let add = match &events[k] {
            MdEvent::Text(t) => count_newlines(t.as_str()),
            _ => 0,
        };
        if total > usize::MAX - add {
            proof {
                lemma_text_newlines_suffix(evs, 0, k as int);
            }
            return None;
        }
        total = total + add;
    }
    Some(total)
}

proof fn lemma_text_newlines_suffix(evs: Seq<MdEventView>, j: int, k: int)
    requires
        0 <= j <= k,
    ensures
        text_newlines(evs, j) >= text_newlines(evs, k),
    decreases k - j,
{
    if j < k {
        lemma_text_newlines_suffix(evs, j + 1, k);
        if j < evs.len() {
            match evs[j] {
                MdEventView::Text(t) => crate::text::lemma_nl_count_le(bytes_of(t)),
                _ => {},
            }
        }
    }
}

/// Parser for Markdown files.
pub struct MarkdownParser;

impl DocumentParser for MarkdownParser {
    /// MIME types handled.
    fn mime_types(&self) -> (r: Vec<&'static str>)
        ensures
            strs_chars(r@) == seq!["text/markdown"@, "text/x-markdown"@],
    {
        let mut v: Vec<&'static str> = Vec::new();
        v.push("text/markdown");
        v.push("text/x-markdown");
        proof {
            reveal_strlit("text/markdown");
            reveal_strlit("text/x-markdown");
            assert(strs_chars(v@) =~= seq!["text/markdown"@, "text/x-markdown"@]);
        }
        v
    }

    /// File extensions handled.
    fn extensions(&self) -> (r: Vec<&'static str>)
        ensures
            strs_chars(r@) == seq!["md"@, "markdown"@, "mkd"@],
    {
        let mut v: Vec<&'static str> = Vec::new();
        v.push("md");
        v.push("markdown");
        v.push("mkd");
        proof {
            reveal_strlit("md");
            reveal_strlit("markdown");
            reveal_strlit("mkd");
            assert(strs_chars(v@) =~= seq!["md"@, "markdown"@, "mkd"@]);
        }
        v
    }

    /// Parses Markdown into heading-delimited sections.
    fn parse(&self, input: &[u8], filename: Option<&str>) -> (r: Result<ParsedDocument, RagError>)
        ensures
            result_view(r) == md_spec(input@, opt_str(filename)),
    {
        let text = match utf8_str(input) {
            Ok(t) => t,
            Err(m) => {
                return Err(RagError::Encoding(m));
            },
        };
        let events = markdown_events(text);
        if text_newline_total(&events).is_none() {
            proof {
                reveal_strlit("line count overflow");
            }
            return Err(RagError::Parse(String::from_str("line count overflow")));
        }
        Ok(markdown_document(&events, filename))
    }
}

} // verus!
