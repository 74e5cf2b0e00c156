//! Parsed documents: sections, metadata and the parsing error.
use vstd::prelude::*;
use vstd::string::*;
use crate::text::{bytes_of, str_eq};

verus! {

/// Distinct keys, as in a map.
pub open spec fn keys_distinct(e: Seq<(String, String)>) -> bool {
    forall|i: int, j: int| 0 <= i < j < e.len() ==> (#[trigger] e[i]).0@ != (#[trigger] e[j]).0@
}

/// The map that a list of entries stands for.
pub open spec fn entries_map(e: Seq<(String, String)>) -> Map<Seq<char>, Seq<char>>
    decreases e.len(),
{
    if e.len() == 0 {
        Map::empty()
    } else {
        entries_map(e.drop_last()).insert(e.last().0@, e.last().1@)
    }
}

proof fn lemma_entries_map_dom(e: Seq<(String, String)>, k: Seq<char>)
    ensures
        entries_map(e).contains_key(k) <==> exists|i: int| 0 <= i < e.len() && (#[trigger] e[i]).0@ == k,
    decreases e.len(),
{
    if e.len() > 0 {
        lemma_entries_map_dom(e.drop_last(), k);
        if entries_map(e).contains_key(k) && e.last().0@ != k {
            let i = choose|i: int| 0 <= i < e.drop_last().len() && (#[trigger] e.drop_last()[i]).0@ == k;
            assert(e[i] == e.drop_last()[i]);
        }
        if exists|i: int| 0 <= i < e.len() && (#[trigger] e[i]).0@ == k {
            let i = choose|i: int| 0 <= i < e.len() && (#[trigger] e[i]).0@ == k;
            if i < e.len() - 1 {
                assert(e.drop_last()[i] == e[i]);
            }
        }
    }
}

proof fn lemma_entries_map_value(e: Seq<(String, String)>, i: int)
    requires
        keys_distinct(e),
        0 <= i < e.len(),
    ensures
        entries_map(e).contains_key(e[i].0@),
        entries_map(e)[e[i].0@] == e[i].1@,
    decreases e.len(),
{
    if i < e.len() - 1 {
        assert(e.drop_last()[i] == e[i]);
        assert(keys_distinct(e.drop_last()));
        lemma_entries_map_value(e.drop_last(), i);
        assert(e[i].0@ != e[e.len() - 1].0@);
    }
}

proof fn lemma_entries_map_update(e: Seq<(String, String)>, i: int, k: String, v: String)
    requires
        keys_distinct(e),
        0 <= i < e.len(),
        e[i].0@ == k@,
    ensures
        entries_map(e.update(i, (k, v))) == entries_map(e).insert(k@, v@),
        keys_distinct(e.update(i, (k, v))),
    decreases e.len(),
{
    let u = e.update(i, (k, v));
    assert(keys_distinct(u)) by {
        assert forall|a: int, b: int| 0 <= a < b < u.len() implies (#[trigger] u[a]).0@ != (
        #[trigger] u[b]).0@ by {
            assert(e[a].0@ != e[b].0@);
        }
    }
    if i == e.len() - 1 {
        assert(u.drop_last() =~= e.drop_last());
        assert(entries_map(u) =~= entries_map(e).insert(k@, v@));
    } else {
        assert(keys_distinct(e.drop_last()));
        lemma_entries_map_update(e.drop_last(), i, k, v);
        assert(u.drop_last() =~= e.drop_last().update(i, (k, v)));
        assert(e.last().0@ != k@) by {
            assert(e[i].0@ != e[e.len() - 1].0@);
        }
        assert(entries_map(u) =~= entries_map(e).insert(k@, v@));
    }
}

/// A string-to-string map (document metadata).
#[derive(Debug)]
pub struct Metadata {
    entries: Vec<(String, String)>,
}

impl View for Metadata {
    type V = Map<Seq<char>, Seq<char>>;

    closed spec fn view(&self) -> Map<Seq<char>, Seq<char>> {
        entries_map(self.entries@)
    }
}

impl Metadata {
    #[verifier::type_invariant]
    closed spec fn wf(self) -> bool {
        keys_distinct(self.entries@)
    }

    /// An empty map.
    pub fn new() -> (r: Self)
        ensures
            r@ == Map::<Seq<char>, Seq<char>>::empty(),
    {
        Metadata { entries: Vec::new() }
    }

    fn position(&self, key: &str) -> (r: Option<usize>)
        ensures
            r matches Some(i) ==> i < self.entries@.len() && self.entries@[i as int].0@ == key@,
            r is None ==> forall|i: int|
                0 <= i < self.entries@.len() ==> (#[trigger] self.entries@[i]).0@ != key@,
    {
        let mut i: usize = 0;
        while i < self.entries.len()
            invariant
                i <= self.entries@.len(),
                forall|j: int| 0 <= j < i ==> (#[trigger] self.entries@[j]).0@ != key@,
            decreases self.entries@.len() - i,
        {
            if str_eq(self.entries[i].0.as_str(), key) {
                return Some(i);
            }
            i = i + 1;
        }
        None
    }

    /// Sets `key` to `value`, replacing any earlier value.
    pub fn insert(&mut self, key: String, value: String)
        ensures
            final(self)@ == old(self)@.insert(key@, value@),
    {
        proof {
            use_type_invariant(&*self);
        }
        match self.position(key.as_str()) {
            Some(i) => {
                proof {
                    lemma_entries_map_update(self.entries@, i as int, key, value);
                }
                let mut entries: Vec<(String, String)> = Vec::new();
                std::mem::swap(&mut entries, &mut self.entries);
                entries.set(i, (key, value));
                self.entries = entries;
            },
            None => {
                let ghost e = self.entries@;
                let mut entries: Vec<(String, String)> = Vec::new();
                std::mem::swap(&mut entries, &mut self.entries);
                entries.push((key, value));
                proof {
                    assert(entries@.drop_last() =~= e);
                    assert(keys_distinct(entries@)) by {
                        assert forall|a: int, b: int| 0 <= a < b < entries@.len() implies (
                        #[trigger] entries@[a]).0@ != (#[trigger] entries@[b]).0@ by {
                            if b < e.len() {
                                assert(e[a].0@ != e[b].0@);
                            } else {
                                assert(e[a].0@ != key@);
                            }
                        }
                    }
                }
                self.entries = entries;
            },
        }
    }

    /// The value of `key`, if set.
    pub fn get(&self, key: &str) -> (r: Option<&String>)
        ensures
            r is Some <==> self@.contains_key(key@),
            r matches Some(v) ==> self@[key@] == v@,
    {
        proof {
            use_type_invariant(self);
            lemma_entries_map_dom(self.entries@, key@);
        }
        match self.position(key) {
            Some(i) => {
                proof {
                    lemma_entries_map_value(self.entries@, i as int);
                }
                Some(&self.entries[i].1)
            },
            None => None,
        }
    }

    /// Whether `key` is set.
    pub fn contains_key(&self, key: &str) -> (r: bool)
        ensures
            r == self@.contains_key(key@),
    {
        self.get(key).is_some()
    }

    /// Number of keys.
    pub fn len(&self) -> (r: usize)
        ensures
            r == self@.dom().len(),
    {
        proof {
            use_type_invariant(self);
            lemma_entries_map_len(self.entries@);
        }
        self.entries.len()
    }

    /// A copy of the map.
    pub fn copy(&self) -> (r: Self)
        ensures
            r@ == self@,
    {
        proof {
            use_type_invariant(self);
        }
        let mut entries: Vec<(String, String)> = Vec::new();
        let mut i: usize = 0;
        while i < self.entries.len()
            invariant
                i <= self.entries@.len(),
                keys_distinct(self.entries@),
                entries@.len() == i,
                forall|j: int| 0 <= j < i ==> (#[trigger] entries@[j]).0@ == self.entries@[j].0@
                    && entries@[j].1@ == self.entries@[j].1@,
            decreases self.entries@.len() - i,
        {
            let k = self.entries[i].0.clone();
            let v = self.entries[i].1.clone();
            entries.push((k, v));
            i = i + 1;
        }
        proof {
            lemma_entries_map_same(entries@, self.entries@);
            assert(keys_distinct(entries@)) by {
                assert forall|a: int, b: int| 0 <= a < b < entries@.len() implies (
                #[trigger] entries@[a]).0@ != (#[trigger] entries@[b]).0@ by {
                    assert(self.entries@[a].0@ != self.entries@[b].0@);
                }
            }
        }
        Metadata { entries }
    }
}

proof fn lemma_entries_map_same(a: Seq<(String, String)>, b: Seq<(String, String)>)
    requires
        a.len() == b.len(),
        forall|j: int| 0 <= j < a.len() ==> (#[trigger] a[j]).0@ == b[j].0@ && a[j].1@ == b[j].1@,
    ensures
        entries_map(a) == entries_map(b),
    decreases a.len(),
{
    if a.len() > 0 {
        assert forall|j: int| 0 <= j < a.drop_last().len() implies (
        #[trigger] a.drop_last()[j]).0@ == b.drop_last()[j].0@ && a.drop_last()[j].1@
            == b.drop_last()[j].1@ by {
            assert(a.drop_last()[j] == a[j]);
            assert(b.drop_last()[j] == b[j]);
        }
        lemma_entries_map_same(a.drop_last(), b.drop_last());
    }
}

proof fn lemma_entries_map_len(e: Seq<(String, String)>)
    requires
        keys_distinct(e),
    ensures
        entries_map(e).dom().finite(),
        entries_map(e).dom().len() == e.len(),
    decreases e.len(),
{
    if e.len() > 0 {
        assert(keys_distinct(e.drop_last()));
        lemma_entries_map_len(e.drop_last());
        lemma_entries_map_dom(e.drop_last(), e.last().0@);
        if entries_map(e.drop_last()).contains_key(e.last().0@) {
            let i = choose|i: int|
                0 <= i < e.drop_last().len() && (#[trigger] e.drop_last()[i]).0@ == e.last().0@;
            assert(e[i] == e.drop_last()[i]);
            assert(e[i].0@ != e[e.len() - 1].0@);
        }
    }
}

/// A logical section extracted from a document.
#[derive(Debug, Clone)]
pub struct Section {
    pub heading: Option<String>,
    pub content: String,
    pub level: u8,
    pub start_line: usize,
    pub end_line: usize,
}

/// Result of parsing a document into structured content.
#[derive(Debug)]
pub struct ParsedDocument {
    pub title: Option<String>,
    pub content: String,
    pub mime_type: String,
    pub sections: Vec<Section>,
    pub metadata: Metadata,
}

/// Implemented by every format-specific parser.
pub trait DocumentParser {
    /// MIME types the parser handles.
    fn mime_types(&self) -> Vec<&'static str>;

    /// File extensions the parser handles.
    fn extensions(&self) -> Vec<&'static str>;

    /// Parses a document.
    fn parse(&self, input: &[u8], filename: Option<&str>) -> (r: Result<ParsedDocument, RagError>)
        requires
            input@.len() <= isize::MAX,
    ;
}

/// The characters of an optional string.
pub open spec fn opt_chars(o: Option<String>) -> Option<Seq<char>> {
    match o {
        Some(s) => Some(s@),
        None => None,
    }
}

/// The characters of each string slice.
pub open spec fn strs_chars(v: Seq<&str>) -> Seq<Seq<char>> {
    v.map_values(|s: &str| s@)
}

/// What can go wrong while parsing a document.
#[derive(Debug)]
pub enum RagError {
    Parse(String),
    UnsupportedFormat(String),
    Pdf(String),
    Csv(String),
    Json(String),
    Encoding(String),
}

impl RagError {
    /// Human-readable description, `"<kind>: <detail>"`.
    pub fn message(&self) -> (r: String)
        ensures
            r@ == match self {
                RagError::Parse(m) => "parse: "@ + m@,
                RagError::UnsupportedFormat(m) => "unsupported format: "@ + m@,
                RagError::Pdf(m) => "PDF: "@ + m@,
                RagError::Csv(m) => "CSV: "@ + m@,
                RagError::Json(m) => "JSON: "@ + m@,
                RagError::Encoding(m) => "encoding: "@ + m@,
            },
    {
        let (prefix, m) = match self {
            RagError::Parse(m) => ("parse: ", m),
            RagError::UnsupportedFormat(m) => ("unsupported format: ", m),
            RagError::Pdf(m) => ("PDF: ", m),
            RagError::Csv(m) => ("CSV: ", m),
            RagError::Json(m) => ("JSON: ", m),
            RagError::Encoding(m) => ("encoding: ", m),
        };
        let mut r = String::from_str(prefix);
        r.append(m.as_str());
        r
    }
}

/// Abstract value of a section.
pub struct SectionView {
    pub heading: Option<Seq<char>>,
    pub content: Seq<char>,
    pub level: u8,
    pub start_line: int,
    pub end_line: int,
}

/// Abstract value of a parsed document.
pub struct DocView {
    pub title: Option<Seq<char>>,
    pub content: Seq<char>,
    pub mime_type: Seq<char>,
    pub sections: Seq<SectionView>,
    pub metadata: Map<Seq<char>, Seq<char>>,
}

/// The abstract value of a section.
pub open spec fn section_view(s: Section) -> SectionView {
    SectionView {
        heading: opt_chars(s.heading),
        content: s.content@,
        level: s.level,
        start_line: s.start_line as int,
        end_line: s.end_line as int,
    }
}

/// The abstract values of a list of sections.
pub open spec fn sections_view(v: Seq<Section>) -> Seq<SectionView> {
    v.map_values(|s: Section| section_view(s))
}

/// The abstract value of a parsed document.
pub open spec fn doc_view(d: ParsedDocument) -> DocView {
    DocView {
        title: opt_chars(d.title),
        content: d.content@,
        mime_type: d.mime_type@,
        sections: sections_view(d.sections@),
        metadata: d.metadata@,
    }
}

/// Kind of a parsing error.
pub enum ErrorKind {
    Parse,
    UnsupportedFormat,
    Pdf,
    Csv,
    Json,
    Encoding,
}

/// Abstract value of an error: its kind and detail.
pub open spec fn err_view(e: RagError) -> (ErrorKind, Seq<char>) {
    match e {
        RagError::Parse(m) => (ErrorKind::Parse, m@),
        RagError::UnsupportedFormat(m) => (ErrorKind::UnsupportedFormat, m@),
        RagError::Pdf(m) => (ErrorKind::Pdf, m@),
        RagError::Csv(m) => (ErrorKind::Csv, m@),
        RagError::Json(m) => (ErrorKind::Json, m@),
        RagError::Encoding(m) => (ErrorKind::Encoding, m@),
    }
}

/// Abstract value of a parse result.
pub open spec fn result_view(r: Result<ParsedDocument, RagError>) -> Result<
    DocView,
    (ErrorKind, Seq<char>),
> {
    match r {
        Ok(d) => Ok(doc_view(d)),
        Err(e) => Err(err_view(e)),
    }
}

/// A one-entry metadata map.
pub fn metadata_with(key: &str, value: &str) -> (r: Metadata)
    ensures
        r@ == map![key@ => value@],
{
    let mut m = Metadata::new();
    m.insert(String::from_str(key), String::from_str(value));
    proof {
        assert(m@ =~= map![key@ => value@]);
    }
    m
}

} // verus!
