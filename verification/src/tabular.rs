//! Comma-separated tables and JSON documents, and the parser for plain,
//! tabular and JSON text.
use vstd::prelude::*;
use vstd::string::*;
use crate::text::{bytes_of, nl_count, count_newlines, lemma_nl_count_le, str_eq};
use crate::split::{join_chars, strings_chars, join_with, lemma_join_chars_front};
use crate::document::{
    DocumentParser,
    ParsedDocument, Section, SectionView, DocView, RagError, ErrorKind, Metadata, result_view,
    sections_view, section_view, doc_view, metadata_with, strs_chars, opt_chars,
};
use crate::paths::{stem, stem_spec, opt_str, decimal, decimal_string, lower_ext, lower_extension};
use crate::code::{lines, lines_of};
use crate::plain::{parse_plain, plain_spec};

verus! {

// ── CSV ─────────────────────────────────────────────────────────────────────

/// The header fields that the `csv` crate's default reader reads from
/// `input`, or the text of its error.
pub uninterp spec fn csv_header_fields(input: Seq<u8>) -> Result<Seq<Seq<char>>, Seq<char>>;

/// The records after the header that the `csv` crate's default reader reads
/// from `input`, field by field, or the text of the first error.
pub uninterp spec fn csv_data_records(input: Seq<u8>) -> Result<
    Seq<Seq<Seq<char>>>,
    Seq<char>,
>;

/// Abstract value of a list of fields or an error text.
pub open spec fn fields_view(r: Result<Vec<String>, String>) -> Result<Seq<Seq<char>>, Seq<char>> {
    match r {
        Ok(v) => Ok(strings_chars(v@)),
        Err(m) => Err(m@),
    }
}

/// The characters of each field of each record.
pub open spec fn records_chars(v: Seq<Vec<String>>) -> Seq<Seq<Seq<char>>> {
    v.map_values(|r: Vec<String>| strings_chars(r@))
}

/// Abstract value of a list of records or an error text.
pub open spec fn records_view(r: Result<Vec<Vec<String>>, String>) -> Result<
    Seq<Seq<Seq<char>>>,
    Seq<char>,
> {
    match r {
        Ok(v) => Ok(records_chars(v@)),
        Err(m) => Err(m@),
    }
}

/// `csv::Reader::from_reader(input).headers()`: the header record's fields,
/// or the text of the error.
#[verifier::external_body]
fn csv_headers(input: &[u8]) -> (r: Result<Vec<String>, String>)
    ensures
        fields_view(r) == csv_header_fields(input@),
{
    match csv::Reader::from_reader(input).headers() {
        Ok(h) => Ok(h.iter().map(|f| f.to_string()).collect()),
        Err(e) => Err(e.to_string()),
    }
}

/// `csv::Reader::from_reader(input).records()`: the fields of each record
/// after the header, until the first error, whose text is returned instead.
/// The bound on the number of records is std's: a vector of items that are
/// not zero-sized never holds more than `isize::MAX` bytes.
#[verifier::external_body]
fn csv_rows(input: &[u8]) -> (r: Result<Vec<Vec<String>>, String>)
    ensures
        records_view(r) == csv_data_records(input@),
        r matches Ok(rows) ==> rows@.len() <= isize::MAX,
{
    let mut rows = Vec::new();
    for rec in csv::Reader::from_reader(input).records() {
        match rec {
            Ok(rec) => rows.push(rec.iter().map(|f| f.to_string()).collect()),
            Err(e) => return Err(e.to_string()),
        }
    }
    Ok(rows)
}

/// Each record as one comma-joined line.
pub open spec fn csv_lines(rows: Seq<Seq<Seq<char>>>) -> Seq<Seq<char>> {
    rows.map_values(|r: Seq<Seq<char>>| join_chars(r, ","@))
}

/// The document for a header and its records: the header line, then one
/// line per record; a `Headers` section and, when there are records, a
/// `Data` section.
pub open spec fn csv_doc(
    headers: Seq<Seq<char>>,
    rows: Seq<Seq<Seq<char>>>,
    filename: Option<Seq<char>>,
) -> DocView {
    let header_line = join_chars(headers, ","@);
    let data = csv_lines(rows);
    DocView {
        title: stem_spec(filename),
        content: join_chars(seq![header_line] + data, "\n"@),
        mime_type: "text/csv"@,
        sections: seq![
            SectionView {
                heading: Some("Headers"@),
                content: header_line,
                level: 1,
                start_line: 0,
                end_line: 1,
            },
        ] + if rows.len() == 0 {
            Seq::<SectionView>::empty()
        } else {
            seq![
                SectionView {
                    heading: Some("Data"@),
                    content: join_chars(data, "\n"@),
                    level: 1,
                    start_line: 1,
                    end_line: rows.len() + 1int,
                },
            ]
        },
        metadata: map![
            "parser"@ => "csv"@,
            "columns"@ => join_chars(headers, ", "@),
            "row_count"@ => decimal(rows.len()),
        ],
    }
}

/// What the CSV parser gives for `input`.
pub open spec fn csv_spec(input: Seq<u8>, filename: Option<Seq<char>>) -> Result<
    DocView,
    (ErrorKind, Seq<char>),
> {
    match csv_header_fields(input) {
        Err(m) => Err((ErrorKind::Csv, m)),
        Ok(h) => match csv_data_records(input) {
            Err(m) => Err((ErrorKind::Csv, m)),
            Ok(rows) => Ok(csv_doc(h, rows, filename)),
        },
    }
}

/// Builds the document for a table's header fields and records.
pub fn csv_document(headers: &Vec<String>, rows: &Vec<Vec<String>>, filename: Option<&str>) -> (r:
    ParsedDocument)
    requires
        rows@.len() < usize::MAX,
    ensures
        doc_view(r) == csv_doc(strings_chars(headers@), records_chars(rows@), opt_str(filename)),
{
    let ghost data = csv_lines(records_chars(rows@));
    let header_line = join_with(headers, ",");
    let mut data_lines: Vec<String> = Vec::new();
    let mut i: usize = 0;
    while i < rows.len()
        invariant
            i <= rows@.len(),
            data == csv_lines(records_chars(rows@)),
            strings_chars(data_lines@) == data.take(i as int),
        decreases rows@.len() - i,
    {
        let line = join_with(&rows[i], ",");
        let ghost before = strings_chars(data_lines@);
        data_lines.push(line);
        proof {
            assert(strings_chars(data_lines@) =~= before.push(line@));
            assert(data.take(i + 1) =~= data.take(i as int).push(data[i as int]));
        }
        i = i + 1;
    }
    proof {
        assert(data.take(i as int) =~= data);
        lemma_join_chars_front(header_line@, data, "\n"@);
        reveal_strlit("\n");
        reveal_strlit("Headers");
        reveal_strlit("Data");
        reveal_strlit("text/csv");
        reveal_strlit("parser");
        reveal_strlit("csv");
        reveal_strlit("columns");
        reveal_strlit("row_count");
    }
    let n = rows.len();
    let mut content = header_line.clone();
    let mut sections: Vec<Section> = Vec::new();
    sections.push(
        Section {
            heading: Some(String::from_str("Headers")),
            content: header_line,
            level: 1,
            start_line: 0,
            end_line: 1,
        },
    );
    if n > 0 {
        let data_text = join_with(&data_lines, "\n");
        content.append("\n");
        content.append(data_text.as_str());
        sections.push(
            Section {
                heading: Some(String::from_str("Data")),
                content: data_text,
                level: 1,
                start_line: 1,
                end_line: n + 1,
            },
        );
    }
    let mut metadata = Metadata::new();
    metadata.insert(String::from_str("parser"), String::from_str("csv"));
    metadata.insert(String::from_str("columns"), join_with(headers, ", "));
    metadata.insert(String::from_str("row_count"), decimal_string(n));
    let doc = ParsedDocument {
        title: stem(filename),
        content,
        mime_type: String::from_str("text/csv"),
        sections,
        metadata,
    };
    proof {
        let h = strings_chars(headers@);
        let expect = csv_doc(h, records_chars(rows@), opt_str(filename));
        assert(doc.metadata@ =~= expect.metadata);
        assert(sections_view(doc.sections@) =~= expect.sections);
    }
    doc
}

/// Parses a comma-separated table with a header row.
pub fn parse_csv(input: &[u8], filename: Option<&str>) -> (r: Result<ParsedDocument, RagError>)
    ensures
        result_view(r) == csv_spec(input@, opt_str(filename)),
{
    let headers = match csv_headers(input) {
        Ok(h) => h,
        Err(m) => {
            return Err(RagError::Csv(m));
        },
    };
    let rows = match csv_rows(input) {
        Ok(rows) => rows,
        Err(m) => {
            return Err(RagError::Csv(m));
        },
    };
    Ok(csv_document(&headers, &rows, filename))
}

// ── JSON ────────────────────────────────────────────────────────────────────

/// `serde_json::to_string_pretty` of the value that `serde_json::from_slice`
/// reads from `input`, or the text of the error.
pub uninterp spec fn json_pretty(input: Seq<u8>) -> Result<Seq<char>, Seq<char>>;

/// For an object that `serde_json::from_slice` reads from `input`: each key
/// with `serde_json::to_string_pretty` of its value, in the map's order;
/// `None` for any other value; or the text of the error.
pub uninterp spec fn json_object_entries(input: Seq<u8>) -> Result<
    Option<Seq<(Seq<char>, Seq<char>)>>,
    Seq<char>,
>;

/// Abstract value of a text or an error text.
pub open spec fn text_view(r: Result<String, String>) -> Result<Seq<char>, Seq<char>> {
    match r {
        Ok(s) => Ok(s@),
        Err(m) => Err(m@),
    }
}

/// The characters of each key and value.
pub open spec fn pairs_chars(v: Seq<(String, String)>) -> Seq<(Seq<char>, Seq<char>)> {
    v.map_values(|p: (String, String)| (p.0@, p.1@))
}

/// Abstract value of an optional list of entries.
pub open spec fn opt_pairs_chars(o: Option<Vec<(String, String)>>) -> Option<
    Seq<(Seq<char>, Seq<char>)>,
> {
    match o {
        Some(v) => Some(pairs_chars(v@)),
        None => None,
    }
}

/// Abstract value of an optional list of entries or an error text.
pub open spec fn entries_view(r: Result<Option<Vec<(String, String)>>, String>) -> Result<
    Option<Seq<(Seq<char>, Seq<char>)>>,
    Seq<char>,
> {
    match r {
        Ok(o) => Ok(opt_pairs_chars(o)),
        Err(m) => Err(m@),
    }
}

/// `serde_json::from_slice` then `serde_json::to_string_pretty`: the value
/// in `input`, pretty-printed, or the text of the error.
#[verifier::external_body]
fn pretty_json(input: &[u8]) -> (r: Result<String, String>)
    ensures
        text_view(r) == json_pretty(input@),
{
    match serde_json::from_slice::<serde_json::Value>(input) {
        Ok(v) => match serde_json::to_string_pretty(&v) {
            Ok(s) => Ok(s),
            Err(e) => Err(e.to_string()),
        },
        Err(e) => Err(e.to_string()),
    }
}

/// `serde_json::from_slice`, then for an object each key with its value
/// pretty-printed by `serde_json::to_string_pretty`, in the map's order;
/// `None` for any other value; or the text of the error.
#[verifier::external_body]
fn object_entries(input: &[u8]) -> (r: Result<Option<Vec<(String, String)>>, String>)
    ensures
        entries_view(r) == json_object_entries(input@),
{
    let map = match serde_json::from_slice::<serde_json::Value>(input) {
        Ok(serde_json::Value::Object(map)) => map,
        Ok(_) => return Ok(None),
        Err(e) => return Err(e.to_string()),
    };
    let mut out = Vec::new();
    for (k, v) in &map {
        match serde_json::to_string_pretty(v) {
            Ok(s) => out.push((k.clone(), s)),
            Err(e) => return Err(e.to_string()),
        }
    }
    Ok(Some(out))
}

/// Lines taken by entries `k..`: each value's lines and one between values.
pub open spec fn json_line_total(entries: Seq<(Seq<char>, Seq<char>)>, k: int) -> int
    decreases entries.len() - k,
{
    if k < 0 || k >= entries.len() {
        0
    } else {
        nl_count(bytes_of(entries[k].1)) + 2 + json_line_total(entries, k + 1)
    }
}

/// One section per entry `k..`, the first starting at line `line`.
pub open spec fn json_sections(entries: Seq<(Seq<char>, Seq<char>)>, k: int, line: int) -> Seq<
    SectionView,
>
    decreases entries.len() - k,
{
    if k < 0 || k >= entries.len() {
        seq![]
    } else {
        let vl = nl_count(bytes_of(entries[k].1)) + 1;
        seq![
            SectionView {
                heading: Some(entries[k].0),
                content: entries[k].1,
                level: 1,
                start_line: line,
                end_line: line + vl,
            },
        ] + json_sections(entries, k + 1, line + vl + 1)
    }
}

/// The document for a pretty-printed JSON value: a section per key of an
/// object, else one section over all the lines.
pub open spec fn json_doc(
    pretty: Seq<char>,
    entries: Option<Seq<(Seq<char>, Seq<char>)>>,
    filename: Option<Seq<char>>,
) -> DocView {
    DocView {
        title: stem_spec(filename),
        content: pretty,
        mime_type: "application/json"@,
        sections: match entries {
            Some(e) => json_sections(e, 0, 0),
            None => seq![
                SectionView {
                    heading: None,
                    content: pretty,
                    level: 0,
                    start_line: 0,
                    end_line: lines_of(bytes_of(pretty)).len() as int,
                },
            ],
        },
        metadata: map!["parser"@ => "json"@],
    }
}

/// What the JSON parser gives for `input`.
pub open spec fn json_spec(input: Seq<u8>, filename: Option<Seq<char>>) -> Result<
    DocView,
    (ErrorKind, Seq<char>),
> {
    match json_pretty(input) {
        Err(m) => Err((ErrorKind::Json, m)),
        Ok(p) => match json_object_entries(input) {
            Err(m) => Err((ErrorKind::Json, m)),
            Ok(Some(e)) => if json_line_total(e, 0) <= usize::MAX {
                Ok(json_doc(p, Some(e), filename))
            } else {
                Err((ErrorKind::Parse, "line count overflow"@))
            },
            Ok(None) => Ok(json_doc(p, None, filename)),
        },
    }
}

proof fn lemma_json_line_total_nonneg(entries: Seq<(Seq<char>, Seq<char>)>, k: int)
    ensures
        json_line_total(entries, k) >= 0,
    decreases entries.len() - k,
{
    if 0 <= k < entries.len() {
        lemma_json_line_total_nonneg(entries, k + 1);
        lemma_nl_count_le(bytes_of(entries[k].1));
    }
}

/// Total lines taken by the entries, when it fits in a `usize`.
fn entry_line_total(entries: &Vec<(String, String)>) -> (r: Option<usize>)
    ensures
        r is Some <==> json_line_total(pairs_chars(entries@), 0) <= usize::MAX,
        r matches Some(t) ==> t == json_line_total(pairs_chars(entries@), 0),
{
    let ghost e = pairs_chars(entries@);
    let mut total: usize = 0;
    let mut k = entries.len();
    while k > 0
        invariant
            e == pairs_chars(entries@),
            k <= e.len(),
            total == json_line_total(e, k as int),
        decreases k,
    {
        k = k - 1;
        let add = count_newlines(entries[k].1.as_str());
        proof {
            lemma_json_line_total_nonneg(e, 0);
            lemma_json_line_total_prefix(e, 0, k as int);
        }
        if total > usize::MAX - 2 || total + 2 > usize::MAX - add {
            return None;
        }
        total = total + add + 2;
    }
    Some(total)
}

proof fn lemma_json_line_total_prefix(entries: Seq<(Seq<char>, Seq<char>)>, j: int, k: int)
    requires
        0 <= j <= k,
    ensures
        json_line_total(entries, j) >= json_line_total(entries, k),
    decreases k - j,
{
    if j < k {
        lemma_json_line_total_prefix(entries, j + 1, k);
        if j < entries.len() {
            lemma_nl_count_le(bytes_of(entries[j].1));
        }
    }
}

/// Builds the document for a pretty-printed JSON value and, for an object,
/// its entries.
pub fn json_document(
    pretty: String,
    entries: Option<Vec<(String, String)>>,
    filename: Option<&str>,
) -> (r: ParsedDocument)
    requires
        entries matches Some(e) ==> json_line_total(pairs_chars(e@), 0) <= usize::MAX,
    ensures
        doc_view(r) == json_doc(pretty@, opt_pairs_chars(entries), opt_str(filename)),
{
    let ghost p = pretty@;
    let sections = match entries {
        Some(entries) => {
            let ghost e = pairs_chars(entries@);
            let mut out: Vec<Section> = Vec::new();
            let mut line_num: usize = 0;
            let mut k: usize = 0;
            proof {
                assert(sections_view(out@) =~= Seq::<SectionView>::empty());
            }
            while k < entries.len()
                invariant
                    e == pairs_chars(entries@),
                    k <= e.len(),
                    line_num + json_line_total(e, k as int) <= usize::MAX,
                    json_sections(e, 0, 0) == sections_view(out@) + json_sections(
                        e,
                        k as int,
                        line_num as int,
                    ),
                decreases e.len() - k,
            {
                proof {
                    lemma_json_line_total_nonneg(e, k + 1);
                }
                let val_lines = count_newlines(entries[k].1.as_str()) + 1;
                let sec = Section {
                    heading: Some(entries[k].0.clone()),
                    content: entries[k].1.clone(),
                    level: 1,
                    start_line: line_num,
                    end_line: line_num + val_lines,
                };
                let ghost before = sections_view(out@);
                out.push(sec);
                proof {
                    assert(sections_view(out@) =~= before.push(section_view(sec)));
                    assert(before.push(section_view(sec)) + json_sections(
                        e,
                        k + 1,
                        line_num + val_lines + 1,
                    ) =~= before + json_sections(e, k as int, line_num as int));
                }
                line_num = line_num + val_lines + 1;
                k = k + 1;
            }
            proof {
                assert(json_sections(e, k as int, line_num as int) =~= Seq::<SectionView>::empty());
                assert(sections_view(out@) =~= json_sections(e, 0, 0));
            }
            out
        },
        None => {
            let n = lines(pretty.as_str()).len();
            let mut out: Vec<Section> = Vec::new();
            out.push(
                Section {
                    heading: None,
                    content: pretty.clone(),
                    level: 0,
                    start_line: 0,
                    end_line: n,
                },
            );
            proof {
                assert(sections_view(out@) =~= seq![section_view(out@[0])]);
            }
            out
        },
    };
    proof {
        reveal_strlit("application/json");
        reveal_strlit("parser");
        reveal_strlit("json");
    }
    ParsedDocument {
        title: stem(filename),
        content: pretty,
        mime_type: String::from_str("application/json"),
        sections,
        metadata: metadata_with("parser", "json"),
    }
}

/// Parses a JSON document: one section per key of a top-level object, else
/// one section for the whole value.
pub fn parse_json(input: &[u8], filename: Option<&str>) -> (r: Result<ParsedDocument, RagError>)
    ensures
        result_view(r) == json_spec(input@, opt_str(filename)),
{
    let pretty = match pretty_json(input) {
        Ok(p) => p,
        Err(m) => {
            return Err(RagError::Json(m));
        },
    };
    let entries = match object_entries(input) {
        Ok(o) => o,
        Err(m) => {
            return Err(RagError::Json(m));
        },
    };
    if let Some(e) = &entries {
        if entry_line_total(e).is_none() {
            proof {
                reveal_strlit("line count overflow");
            }
            return Err(RagError::Parse(String::from_str("line count overflow")));
        }
    }
    Ok(json_document(pretty, entries, filename))
}

// ── the parser ──────────────────────────────────────────────────────────────

/// What the text parser gives: CSV or JSON by the (lowercased) extension,
/// else plain text.
pub open spec fn text_spec(input: Seq<u8>, filename: Option<Seq<char>>) -> Result<
    DocView,
    (ErrorKind, Seq<char>),
> {
    let ext = lower_ext(filename);
    if ext == Some("csv"@) {
        csv_spec(input, filename)
    } else if ext == Some("json"@) {
        json_spec(input, filename)
    } else {
        plain_spec(input, filename)
    }
}

/// Parser for plain text, CSV and JSON.
pub struct TextParser;

impl DocumentParser for TextParser {
    /// MIME types handled.
    fn mime_types(&self) -> (r: Vec<&'static str>)
        ensures
            strs_chars(r@) == seq!["text/plain"@, "text/csv"@, "application/json"@, "application/csv"@],
    {
        let mut v: Vec<&'static str> = Vec::new();
        v.push("text/plain");
        v.push("text/csv");
        v.push("application/json");
        v.push("application/csv");
        proof {
            reveal_strlit("text/plain");
            reveal_strlit("text/csv");
            reveal_strlit("application/json");
            reveal_strlit("application/csv");
            assert(strs_chars(v@) =~= seq!["text/plain"@, "text/csv"@, "application/json"@, "application/csv"@]);
        }
        v
    }

    /// File extensions handled.
    fn extensions(&self) -> (r: Vec<&'static str>)
        ensures
            strs_chars(r@) == seq!["txt"@, "text"@, "csv"@, "json"@],
    {
        let mut v: Vec<&'static str> = Vec::new();
        v.push("txt");
        v.push("text");
        v.push("csv");
        v.push("json");
        proof {
            reveal_strlit("txt");
            reveal_strlit("text");
            reveal_strlit("csv");
            reveal_strlit("json");
            assert(strs_chars(v@) =~= seq!["txt"@, "text"@, "csv"@, "json"@]);
        }
        v
    }

    /// Parses by extension: `.csv` as a table, `.json` as JSON, anything else
    /// as paragraphs of plain text.
    fn parse(&self, input: &[u8], filename: Option<&str>) -> (r: Result<ParsedDocument, RagError>)
        ensures
            result_view(r) == text_spec(input@, opt_str(filename)),
    {
        let ext = lower_extension(filename);
        proof {
            reveal_strlit("csv");
            reveal_strlit("json");
        }
        match &ext {
            Some(e) => {
                if str_eq(e.as_str(), "csv") {
                    return parse_csv(input, filename);
                } else if str_eq(e.as_str(), "json") {
                    return parse_json(input, filename);
                }
            },
            None => {},
        }
        parse_plain(input, filename)
    }
}

} // verus!
