//! HTML documents: visible text grouped into sections at headings, the
//! `<title>` (or first `<h1>`) as title and `<meta name content>` pairs as
//! metadata; script and style content is dropped.
use vstd::prelude::*;
use vstd::utf8::*;
use vstd::string::*;
use std::cell::RefCell;
use html5ever::tendril::StrTendril;
use html5ever::tokenizer::{
    BufferQueue, Token, TokenSink, TokenSinkResult, Tokenizer, TokenizerOpts, TagKind,
};
use crate::text::{
    bytes_of, trim, trim_chars, all_ws, is_blank, utf8_str, utf8_error_text, owned, str_eq,
};
use crate::document::{
    DocumentParser,
    strs_chars,
    ParsedDocument, Section, SectionView, DocView, RagError, ErrorKind, Metadata, result_view,
    sections_view, opt_chars,
};
use crate::paths::{stem, stem_spec, opt_str, to_lowercase, lowercase};
use crate::split::{join_chars, strings_chars, join_with};

verus! {

broadcast use {vstd::utf8::encode_utf8_valid_utf8, vstd::utf8::encode_utf8_decode_utf8};

/// The tokens the section builder reacts to.
pub enum HtmlToken {
    /// A start tag with its attributes (local name, value).
    StartTag { name: String, attrs: Vec<(String, String)> },
    EndTag { name: String },
    /// A run of character data.
    Characters(String),
    /// Any other token.
    Other,
}

/// Abstract value of a token.
pub enum HtmlTokenView {
    StartTag { name: Seq<char>, attrs: Seq<(Seq<char>, Seq<char>)> },
    EndTag { name: Seq<char> },
    Characters(Seq<char>),
    Other,
}

/// The abstract value of a token.
pub open spec fn token_view(t: HtmlToken) -> HtmlTokenView {
    match t {
        HtmlToken::StartTag { name, attrs } => HtmlTokenView::StartTag {
            name: name@,
            attrs: attrs@.map_values(|a: (String, String)| (a.0@, a.1@)),
        },
        HtmlToken::EndTag { name } => HtmlTokenView::EndTag { name: name@ },
        HtmlToken::Characters(s) => HtmlTokenView::Characters(s@),
        HtmlToken::Other => HtmlTokenView::Other,
    }
}

/// The abstract values of a list of tokens.
pub open spec fn token_views(v: Seq<HtmlToken>) -> Seq<HtmlTokenView> {
    v.map_values(|t: HtmlToken| token_view(t))
}

#[verifier::external_type_specification]
#[verifier::external_body]
pub struct ExToken(Token);

#[verifier::external_type_specification]
#[verifier::external_body]
#[verifier::reject_recursive_types(Handle)]
pub struct ExTokenSinkResult<Handle>(TokenSinkResult<Handle>);

/// Token sink handed to the `html5ever` tokenizer: it records each token,
/// converted to an [`HtmlToken`], and always lets the tokenizer continue.
#[verifier::external_body]
struct TokenRecorder {
    tokens: RefCell<Vec<HtmlToken>>,
}

impl TokenSink for TokenRecorder {
    type Handle = ();

    #[verifier::external_body]
    fn process_token(&self, token: Token, _line_number: u64) -> TokenSinkResult<()> {
        let t = match token {
            Token::TagToken(tag) => match tag.kind {
                TagKind::StartTag => HtmlToken::StartTag {
                    name: tag.name.to_string(),
                    attrs: tag.attrs.iter().map(|a| (a.name.local.to_string(), a.value.to_string())).collect(),
                },
                TagKind::EndTag => HtmlToken::EndTag { name: tag.name.to_string() },
            },
            Token::CharacterTokens(s) => HtmlToken::Characters(s.to_string()),
            _ => HtmlToken::Other,
        };
        self.tokens.borrow_mut().push(t);
        TokenSinkResult::Continue
    }
}

/// The tokens the `html5ever` tokenizer (default options, a sink that always
/// continues) produces for `text`.
pub uninterp spec fn html_token_list(text: Seq<char>) -> Seq<HtmlTokenView>;

/// Tokenizes `text` with `html5ever` and records the tokens.
#[verifier::external_body]
pub(crate) fn html_tokens(text: &str) -> (r: Vec<HtmlToken>)
    ensures
        token_views(r@) == html_token_list(text@),
{
    let sink = TokenRecorder { tokens: RefCell::new(Vec::new()) };
    let input = BufferQueue::default();
    input.push_back(StrTendril::from(text));
    let tok = Tokenizer::new(sink, TokenizerOpts::default());
    let _ = tok.feed(&input);
    tok.end();
    tok.sink.tokens.take()
}

/// State of the section builder.
pub struct HtmlStateView {
    pub title: Option<Seq<char>>,
    pub sections: Seq<SectionView>,
    pub metadata: Map<Seq<char>, Seq<char>>,
    pub in_title: bool,
    pub skip_depth: int,
    pub heading_level: Option<u8>,
    pub heading_text: Seq<char>,
    pub pending_heading: Option<(Seq<char>, u8)>,
    pub section_content: Seq<char>,
}

/// State before the first token.
pub open spec fn html_init() -> HtmlStateView {
    HtmlStateView {
        title: None,
        sections: seq![],
        metadata: Map::empty(),
        in_title: false,
        skip_depth: 0,
        heading_level: None,
        heading_text: seq![],
        pending_heading: None,
        section_content: seq![],
    }
}

/// Closes the current section unless it has neither heading nor text.
pub open spec fn html_flush(s: HtmlStateView) -> HtmlStateView {
    let content = trim_chars(s.section_content);
    if content.len() == 0 && s.pending_heading is None {
        s
    } else {
        let heading = match s.pending_heading {
            Some(h) => Some(h.0),
            None => None,
        };
        let level: u8 = match s.pending_heading {
            Some(h) => h.1,
            None => 0,
        };
        HtmlStateView {
            sections: s.sections.push(
                SectionView { heading, content, level, start_line: 0, end_line: 0 },
            ),
            pending_heading: None,
            section_content: seq![],
            ..s
        }
    }
}

/// Is the lowercased tag name a heading `h1`..`h6`?
pub open spec fn is_heading_name(n: Seq<char>) -> bool {
    n == "h1"@ || n == "h2"@ || n == "h3"@ || n == "h4"@ || n == "h5"@ || n == "h6"@
}

/// Level of a heading tag name.
pub open spec fn heading_level_of(n: Seq<char>) -> u8 {
    if n == "h1"@ {
        1
    } else if n == "h2"@ {
        2
    } else if n == "h3"@ {
        3
    } else if n == "h4"@ {
        4
    } else if n == "h5"@ {
        5
    } else {
        6
    }
}

/// The last values of the `name` and `content` attributes.
pub open spec fn meta_pair(attrs: Seq<(Seq<char>, Seq<char>)>) -> (Option<Seq<char>>, Option<
    Seq<char>,
>)
    decreases attrs.len(),
{
    if attrs.len() == 0 {
        (None, None)
    } else {
        let (n, c) = meta_pair(attrs.drop_last());
        let a = attrs.last();
        if a.0 == "name"@ {
            (Some(a.1), c)
        } else if a.0 == "content"@ {
            (n, Some(a.1))
        } else {
            (n, c)
        }
    }
}

/// Is the last character a line feed?
pub open spec fn ends_with_nl(s: Seq<char>) -> bool {
    s.len() > 0 && s.last() == '\n'
}

/// Reaction to one token.
pub open spec fn html_step(s: HtmlStateView, t: HtmlTokenView) -> HtmlStateView {
    match t {
        HtmlTokenView::StartTag { name, attrs } => {
            let n = lowercase(name);
            if n == "script"@ || n == "style"@ {
                HtmlStateView { skip_depth: s.skip_depth + 1, ..s }
            } else if n == "title"@ {
                HtmlStateView { in_title: true, ..s }
            } else if n == "meta"@ {
                let (mn, mc) = meta_pair(attrs);
                if mn is Some && mc is Some {
                    HtmlStateView { metadata: s.metadata.insert(mn.unwrap(), mc.unwrap()), ..s }
                } else {
                    s
                }
            } else if is_heading_name(n) {
                let f = html_flush(s);
                HtmlStateView { heading_level: Some(heading_level_of(n)), heading_text: seq![], ..f }
            } else if (n == "p"@ || n == "div"@ || n == "li"@ || n == "br"@) && s.skip_depth == 0
                && s.heading_level is None {
                HtmlStateView { section_content: s.section_content.push('\n'), ..s }
            } else {
                s
            }
        },
        HtmlTokenView::EndTag { name } => {
            let n = lowercase(name);
            if n == "script"@ || n == "style"@ {
                HtmlStateView {
                    skip_depth: if s.skip_depth > 0 {
                        s.skip_depth - 1
                    } else {
                        0
                    },
                    ..s
                }
            } else if n == "title"@ {
                HtmlStateView { in_title: false, ..s }
            } else if is_heading_name(n) {
                match s.heading_level {
                    Some(level) => {
                        let h = trim_chars(s.heading_text);
                        HtmlStateView {
                            heading_level: None,
                            title: if s.title is None && level == 1 {
                                Some(h)
                            } else {
                                s.title
                            },
                            pending_heading: Some((h, level)),
                            ..s
                        }
                    },
                    None => s,
                }
            } else {
                s
            }
        },
        HtmlTokenView::Characters(text) => {
            if s.skip_depth > 0 {
                s
            } else if s.in_title {
                let t = trim_chars(text);
                if s.title is None && t.len() > 0 {
                    HtmlStateView { title: Some(t), ..s }
                } else {
                    s
                }
            } else if s.heading_level is Some {
                HtmlStateView { heading_text: s.heading_text + text, ..s }
            } else {
                let t = trim_chars(text);
                if t.len() == 0 {
                    s
                } else {
                    let c = if s.section_content.len() > 0 && !ends_with_nl(s.section_content) {
                        s.section_content.push(' ')
                    } else {
                        s.section_content
                    };
                    HtmlStateView { section_content: c + t, ..s }
                }
            }
        },
        HtmlTokenView::Other => s,
    }
}

/// Runs of body text are kept apart: nonblank text outside the title, a
/// heading and skipped elements adds its trimmed text to the section,
/// after one space when the section already holds text that does not end
/// a line.
pub proof fn law_text_runs_apart(s: HtmlStateView, text: Seq<char>)
    requires
        s.skip_depth == 0,
        !s.in_title,
        (s.heading_level is None),
        trim_chars(text).len() > 0,
    ensures
        (s.section_content.len() > 0 && s.section_content.last() != '\n') ==> html_step(
            s,
            HtmlTokenView::Characters(text),
        ).section_content == s.section_content + seq![' '] + trim_chars(text),
        (s.section_content.len() == 0 || s.section_content.last() == '\n') ==> html_step(
            s,
            HtmlTokenView::Characters(text),
        ).section_content == s.section_content + trim_chars(text),
        html_step(s, HtmlTokenView::Characters(text)).sections == s.sections,
{
    assert(s.section_content.push(' ') =~= s.section_content + seq![' ']);
}

/// State after tokens `toks[k..]`.
pub open spec fn html_fold(toks: Seq<HtmlTokenView>, k: int, s: HtmlStateView) -> HtmlStateView
    decreases toks.len() - k,
{
    if k < 0 || k >= toks.len() {
        s
    } else {
        html_fold(toks, k + 1, html_step(s, toks[k]))
    }
}

/// Number of `<script>` and `<style>` start tags in `toks[k..]`.
pub open spec fn skip_opens(toks: Seq<HtmlTokenView>, k: int) -> int
    decreases toks.len() - k,
{
    if k < 0 || k >= toks.len() {
        0
    } else {
        skip_opens(toks, k + 1) + match toks[k] {
            HtmlTokenView::StartTag { name, attrs } => if lowercase(name) == "script"@ || lowercase(
                name,
            ) == "style"@ {
                1int
            } else {
                0int
            },
            _ => 0int,
        }
    }
}

/// A section's text for the document body: heading line then content.
pub open spec fn section_text(s: SectionView) -> Seq<char> {
    match s.heading {
        Some(h) => h + "\n"@ + s.content,
        None => s.content,
    }
}

/// Body texts of sections, dropping all-whitespace ones.
pub open spec fn body_parts(secs: Seq<SectionView>) -> Seq<Seq<char>>
    decreases secs.len(),
{
    if secs.len() == 0 {
        seq![]
    } else {
        let r = body_parts(secs.drop_last());
        let t = section_text(secs.last());
        if all_ws(t) {
            r
        } else {
            r.push(t)
        }
    }
}

/// The document built from a list of tokens.
pub open spec fn html_doc(toks: Seq<HtmlTokenView>, filename: Option<Seq<char>>) -> DocView {
    let s = html_flush(html_fold(toks, 0, html_init()));
    DocView {
        title: match s.title {
            Some(t) => Some(t),
            None => stem_spec(filename),
        },
        content: join_chars(body_parts(s.sections), "\n\n"@),
        mime_type: "text/html"@,
        sections: s.sections,
        metadata: s.metadata.insert("parser"@, "html"@),
    }
}

/// What the HTML parser gives for any input.
pub open spec fn html_spec(input: Seq<u8>, filename: Option<Seq<char>>) -> Result<
    DocView,
    (ErrorKind, Seq<char>),
> {
    if !valid_utf8(input) {
        Err((ErrorKind::Encoding, utf8_error_text(input)))
    } else {
        let toks = html_token_list(decode_utf8(input));
        if skip_opens(toks, 0) > u32::MAX {
            Err((ErrorKind::Parse, "nesting depth overflow"@))
        } else {
            Ok(html_doc(toks, filename))
        }
    }
}

/// Executable state of the section builder.
pub struct HtmlState {
    title: Option<String>,
    sections: Vec<Section>,
    metadata: Metadata,
    in_title: bool,
    skip_depth: u32,
    heading_level: Option<u8>,
    heading_text: String,
    pending_heading: Option<(String, u8)>,
    section_content: String,
}

spec fn pair_view(h: Option<(String, u8)>) -> Option<(Seq<char>, u8)> {
    match h {
        Some(p) => Some((p.0@, p.1)),
        None => None,
    }
}

impl HtmlState {
    /// Abstract value of the state.
    pub closed spec fn view(&self) -> HtmlStateView {
        HtmlStateView {
            title: opt_chars(self.title),
            sections: sections_view(self.sections@),
            metadata: self.metadata@,
            in_title: self.in_title,
            skip_depth: self.skip_depth as int,
            heading_level: self.heading_level,
            heading_text: self.heading_text@,
            pending_heading: pair_view(self.pending_heading),
            section_content: self.section_content@,
        }
    }

    /// The state before any token.
    pub fn new() -> (r: Self)
        ensures
            r.view() == html_init(),
    {
        let r = HtmlState {
            title: None,
            sections: Vec::new(),
            metadata: Metadata::new(),
            in_title: false,
            skip_depth: 0,
            heading_level: None,
            heading_text: String::new(),
            pending_heading: None,
            section_content: String::new(),
        };
        proof {
            assert(sections_view(r.sections@) =~= Seq::<SectionView>::empty());
        }
        r
    }

    /// Closes the current section unless it is empty and has no heading.
    pub fn flush_section(&mut self)
        ensures
            final(self).view() == html_flush(old(self).view()),
    {
        let content = owned(trim(self.section_content.as_str()));
        if content.as_str().is_empty() && self.pending_heading.is_none() {
            return;
        }
        let (heading, level) = match self.pending_heading.take() {
            Some((h, l)) => (Some(h), l),
            None => (None, 0u8),
        };
        let ghost secs0 = sections_view(self.sections@);
        let sec = Section { heading, content, level, start_line: 0, end_line: 0 };
        self.sections.push(sec);
        proof {
            assert(sections_view(self.sections@) =~= secs0.push(
                crate::document::section_view(sec),
            ));
        }
        self.section_content = String::new();
    }

    /// Reacts to one token.
    pub fn process_token(&mut self, token: &HtmlToken)
        requires
            token_view(*token) matches HtmlTokenView::StartTag { name, attrs } ==> (lowercase(name)
                == "script"@ || lowercase(name) == "style"@) ==> old(self).view().skip_depth
                < u32::MAX,
        ensures
            final(self).view() == html_step(old(self).view(), token_view(*token)),
    {
        proof {
            reveal_strlit("script");
            reveal_strlit("style");
            reveal_strlit("title");
            reveal_strlit("meta");
            reveal_strlit("h1");
            reveal_strlit("h2");
            reveal_strlit("h3");
            reveal_strlit("h4");
            reveal_strlit("h5");
            reveal_strlit("h6");
            reveal_strlit("p");
            reveal_strlit("div");
            reveal_strlit("li");
            reveal_strlit("br");
            reveal_strlit("\n");
            reveal_strlit(" ");
        }
        match token {
            HtmlToken::StartTag { name, attrs } => {
                let n = to_lowercase(name.as_str());
                let ns = n.as_str();
                if str_eq(ns, "script") || str_eq(ns, "style") {
                    self.skip_depth = self.skip_depth + 1;
                } else if str_eq(ns, "title") {
                    self.in_title = true;
                } else if str_eq(ns, "meta") {
                    let (mn, mc) = meta_attrs(attrs);
                    if let (Some(k), Some(v)) = (mn, mc) {
                        self.metadata.insert(k, v);
                    }
                } else if let Some(lvl) = heading_level(ns) {
                    self.flush_section();
                    self.heading_level = Some(lvl);
                    self.heading_text = String::new();
                } else if (str_eq(ns, "p") || str_eq(ns, "div") || str_eq(ns, "li") || str_eq(
                    ns,
                    "br",
                )) && self.skip_depth == 0 && self.heading_level.is_none() {
                    self.section_content.append("\n");
                    proof {
                        assert(self.section_content@ =~= old(self).section_content@.push('\n'));
                    }
                }
            },
            HtmlToken::EndTag { name } => {
                let n = to_lowercase(name.as_str());
                let ns = n.as_str();
                if str_eq(ns, "script") || str_eq(ns, "style") {
                    self.skip_depth = if self.skip_depth > 0 {
                        self.skip_depth - 1
                    } else {
                        0
                    };
                } else if str_eq(ns, "title") {
                    self.in_title = false;
                } else if heading_level(ns).is_some() {
                    if let Some(level) = self.heading_level.take() {
                        let heading = owned(trim(self.heading_text.as_str()));
                        if self.title.is_none() && level == 1 {
                            self.title = Some(heading.clone());
                        }
                        self.pending_heading = Some((heading, level));
                    }
                }
            },
            HtmlToken::Characters(s) => {
                if self.skip_depth > 0 {
                    return;
                }
                if self.in_title {
                    if self.title.is_none() {
                        let t = owned(trim(s.as_str()));
                        if !t.as_str().is_empty() {
                            self.title = Some(t);
                        }
                    }
                } else if self.heading_level.is_some() {
                    self.heading_text.append(s.as_str());
                } else {
                    let trimmed = trim(s.as_str());
                    if !trimmed.is_empty() {
                        let len = self.section_content.as_str().as_bytes().len();
                        if len != 0 && self.section_content.as_str().as_bytes()[len - 1] != 10u8 {
                            proof {
                                crate::text::lemma_last_byte_nl(self.section_content@);
                            }
                            self.section_content.append(" ");
                            proof {
                                assert(self.section_content@ =~= old(self).section_content@.push(' '));
                            }
                        } else {
                            proof {
                                crate::text::lemma_last_byte_nl(self.section_content@);
                            }
                        }
                        self.section_content.append(trimmed);
                    }
                }
            },
            HtmlToken::Other => {},
        }
    }
}

/// The `name` and `content` attribute values of a `<meta>` tag.
fn meta_attrs(attrs: &Vec<(String, String)>) -> (r: (Option<String>, Option<String>))
    ensures
        (opt_chars(r.0), opt_chars(r.1)) == meta_pair(
            attrs@.map_values(|a: (String, String)| (a.0@, a.1@)),
        ),
{
    let ghost av = attrs@.map_values(|a: (String, String)| (a.0@, a.1@));
    let mut n: Option<String> = None;
    let mut c: Option<String> = None;
    let mut i: usize = 0;
    proof {
        reveal_strlit("name");
        reveal_strlit("content");
        assert(av.take(0) =~= Seq::<(Seq<char>, Seq<char>)>::empty());
    }
    while i < attrs.len()
        invariant
            av == attrs@.map_values(|a: (String, String)| (a.0@, a.1@)),
            i <= attrs@.len(),
            (opt_chars(n), opt_chars(c)) == meta_pair(av.take(i as int)),
        decreases attrs@.len() - i,
    {
        proof {
            assert(av.take(i + 1).drop_last() =~= av.take(i as int));
            assert(av.take(i + 1).last() == (attrs@[i as int].0@, attrs@[i as int].1@));
        }
        if str_eq(attrs[i].0.as_str(), "name") {
            n = Some(attrs[i].1.clone());
        } else if str_eq(attrs[i].0.as_str(), "content") {
            c = Some(attrs[i].1.clone());
        }
        i = i + 1;
    }
    proof {
        assert(av.take(attrs@.len() as int) =~= av);
    }
    (n, c)
}

/// Level of a heading tag name, if it is one.
fn heading_level(n: &str) -> (r: Option<u8>)
    ensures
        r is Some <==> is_heading_name(n@),
        r matches Some(l) ==> l == heading_level_of(n@),
{
    proof {
        reveal_strlit("h1");
        reveal_strlit("h2");
        reveal_strlit("h3");
        reveal_strlit("h4");
        reveal_strlit("h5");
        reveal_strlit("h6");
    }
    if str_eq(n, "h1") {
        Some(1)
    } else if str_eq(n, "h2") {
        Some(2)
    } else if str_eq(n, "h3") {
        Some(3)
    } else if str_eq(n, "h4") {
        Some(4)
    } else if str_eq(n, "h5") {
        Some(5)
    } else if str_eq(n, "h6") {
        Some(6)
    } else {
        None
    }
}

/// Assembles the document: sections' texts joined by blank lines, the
/// title or else the file stem, the `<meta>` pairs plus `parser = html`.
pub fn build_document_ref(state: &HtmlState, filename: Option<&str>) -> (r: ParsedDocument)
    ensures
        crate::document::doc_view(r) == ({
            let s = state.view();
            DocView {
                title: match s.title {
                    Some(t) => Some(t),
                    None => stem_spec(opt_str(filename)),
                },
                content: join_chars(body_parts(s.sections), "\n\n"@),
                mime_type: "text/html"@,
                sections: s.sections,
                metadata: s.metadata.insert("parser"@, "html"@),
            }
        }),
{
    let ghost secs = sections_view(state.sections@);
    let mut parts: Vec<String> = Vec::new();
    let mut i: usize = 0;
    proof {
        reveal_strlit("\n");
        assert(body_parts(secs.take(0)) =~= Seq::<Seq<char>>::empty());
        assert(strings_chars(parts@) =~= Seq::<Seq<char>>::empty());
    }
    while i < state.sections.len()
        invariant
            secs == sections_view(state.sections@),
            i <= secs.len(),
            strings_chars(parts@) == body_parts(secs.take(i as int)),
        decreases secs.len() - i,
    {
        let s = &state.sections[i];
        let text = match &s.heading {
            Some(h) => {
                let mut t = h.clone();
                t.append("\n");
                t.append(s.content.as_str());
                t
            },
            None => s.content.clone(),
        };
        proof {
            assert(secs.take(i + 1).drop_last() =~= secs.take(i as int));
            assert(secs.take(i + 1).last() == crate::document::section_view(*s));
            assert(text@ == section_text(crate::document::section_view(*s)));
        }
        let ghost before = strings_chars(parts@);
        if !is_blank(text.as_str()) {
            parts.push(text);
            proof {
                assert(strings_chars(parts@) =~= before.push(text@));
            }
        }
        i = i + 1;
    }
    proof {
        assert(secs.take(secs.len() as int) =~= secs);
    }
    let content = join_with(&parts, "\n\n");
    let title = match &state.title {
        Some(t) => Some(t.clone()),
        None => stem(filename),
    };
    let mut metadata = state.metadata.copy();
    proof {
        reveal_strlit("parser");
        reveal_strlit("html");
        reveal_strlit("text/html");
    }
    metadata.insert(String::from_str("parser"), String::from_str("html"));
    let sections = copy_sections(&state.sections);
    ParsedDocument {
        title,
        content,
        mime_type: String::from_str("text/html"),
        sections,
        metadata,
    }
}

fn copy_sections(v: &Vec<Section>) -> (r: Vec<Section>)
    ensures
        sections_view(r@) == sections_view(v@),
{
    let mut r: Vec<Section> = Vec::new();
    let mut i: usize = 0;
    while i < v.len()
        invariant
            i <= v@.len(),
            sections_view(r@) == sections_view(v@).take(i as int),
        decreases v@.len() - i,
    {
        let s = &v[i];
        let heading = match &s.heading {
            Some(h) => Some(h.clone()),
            None => None,
        };
        let c = Section {
            heading,
            content: s.content.clone(),
            level: s.level,
            start_line: s.start_line,
            end_line: s.end_line,
        };
        let ghost before = sections_view(r@);
        r.push(c);
        proof {
            assert(sections_view(r@) =~= before.push(crate::document::section_view(c)));
            assert(sections_view(v@).take(i + 1) =~= sections_view(v@).take(i as int).push(
                crate::document::section_view(v@[i as int]),
            ));
        }
        i = i + 1;
    }
    proof {
        assert(sections_view(v@).take(v@.len() as int) =~= sections_view(v@));
    }
    r
}

/// Builds the document from the tokens.
pub fn html_document(tokens: &Vec<HtmlToken>, filename: Option<&str>) -> (r: ParsedDocument)
    requires
        skip_opens(token_views(tokens@), 0) <= u32::MAX,
    ensures
        crate::document::doc_view(r) == html_doc(token_views(tokens@), opt_str(filename)),
{
    let ghost toks = token_views(tokens@);
    let mut st = HtmlState::new();
    let mut k: usize = 0;
    while k < tokens.len()
        invariant
            toks == token_views(tokens@),
            k <= toks.len(),
            st.view().skip_depth + skip_opens(toks, k as int) <= u32::MAX,
            0 <= st.view().skip_depth,
            html_fold(toks, 0, html_init()) == html_fold(toks, k as int, st.view()),
        decreases toks.len() - k,
    {
        proof {
            assert(toks[k as int] == token_view(tokens@[k as int]));
            lemma_skip_opens_nonneg(toks, k + 1);
        }
        st.process_token(&tokens[k]);
        k = k + 1;
    }
    st.flush_section();
    build_document_ref(&st, filename)
}

proof fn lemma_skip_opens_nonneg(toks: Seq<HtmlTokenView>, k: int)
    ensures
        skip_opens(toks, k) >= 0,
    decreases toks.len() - k,
{
    if 0 <= k < toks.len() {
        lemma_skip_opens_nonneg(toks, k + 1);
    }
}

fn skip_open_count(tokens: &Vec<HtmlToken>) -> (r: bool)
    ensures
        r <==> skip_opens(token_views(tokens@), 0) <= u32::MAX,
{
    let ghost toks = token_views(tokens@);
    let mut total: u32 = 0;
    let mut k = tokens.len();
    proof {
        reveal_strlit("script");
        reveal_strlit("style");
    }
    while k > 0
        invariant
            toks == token_views(tokens@),
            k <= toks.len(),
            total == skip_opens(toks, k as int),
        decreases k,
    {
        k = k - 1;
        proof {
            assert(toks[k as int] == token_view(tokens@[k as int]));
        }
        let add: u32 = match &tokens[k] {
            HtmlToken::StartTag { name, attrs } => {
                let n = to_lowercase(name.as_str());
                if str_eq(n.as_str(), "script") || str_eq(n.as_str(), "style") {
                    1
                } else {
                    0
                }
            },
            _ => 0,
        };
        if total == u32::MAX && add == 1 {
            proof {
                lemma_skip_opens_mono(toks, 0, k as int);
            }
            return false;
        }
        total = total + add;
    }
    true
}

proof fn lemma_skip_opens_mono(toks: Seq<HtmlTokenView>, j: int, k: int)
    requires
        0 <= j <= k,
    ensures
        skip_opens(toks, j) >= skip_opens(toks, k),
    decreases k - j,
{
    if j < k {
        lemma_skip_opens_mono(toks, j + 1, k);
    }
}

/// Parser for HTML files.
pub struct HtmlParser;

impl DocumentParser for HtmlParser {
    /// MIME types handled.
    fn mime_types(&self) -> (r: Vec<&'static str>)
        ensures
            strs_chars(r@) == seq!["text/html"@, "application/xhtml+xml"@],
    {
        let mut v: Vec<&'static str> = Vec::new();
        v.push("text/html");
        v.push("application/xhtml+xml");
        proof {
            reveal_strlit("text/html");
            reveal_strlit("application/xhtml+xml");
            assert(strs_chars(v@) =~= seq!["text/html"@, "application/xhtml+xml"@]);
        }
        v
    }

    /// File extensions handled.
    fn extensions(&self) -> (r: Vec<&'static str>)
        ensures
            strs_chars(r@) == seq!["html"@, "htm"@, "xhtml"@],
    {
        let mut v: Vec<&'static str> = Vec::new();
        v.push("html");
        v.push("htm");
        v.push("xhtml");
        proof {
            reveal_strlit("html");
            reveal_strlit("htm");
            reveal_strlit("xhtml");
            assert(strs_chars(v@) =~= seq!["html"@, "htm"@, "xhtml"@]);
        }
        v
    }

    /// Parses HTML into heading-delimited sections of visible text.
    fn parse(&self, input: &[u8], filename: Option<&str>) -> (r: Result<ParsedDocument, RagError>)
        ensures
            result_view(r) == html_spec(input@, opt_str(filename)),
    {
        let text = match utf8_str(input) {
            Ok(t) => t,
            Err(m) => {
                return Err(RagError::Encoding(m));
            },
        };
        let tokens = html_tokens(text);
        if !skip_open_count(&tokens) {
            proof {
                reveal_strlit("nesting depth overflow");
            }
            return Err(RagError::Parse(String::from_str("nesting depth overflow")));
        }
        Ok(html_document(&tokens, filename))
    }
}

} // verus!
