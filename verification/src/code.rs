//! Source-code documents: the language from the file extension and, for
//! long files, overlapping windows of lines.
use vstd::prelude::*;
use vstd::utf8::*;
use vstd::string::*;
use crate::text::{
    bytes_of, utf8_str, utf8_error_text, owned, substr, push_str, str_eq, lemma_ascii_bytes,
};
use crate::split::{split, split_str, strs_bytes, join, lemma_split_from_nonempty};
use crate::document::{
    DocumentParser,
    strs_chars,
    ParsedDocument, Section, SectionView, DocView, RagError, ErrorKind, Metadata, result_view,
    sections_view, opt_chars,
};
use crate::paths::{
    extension_of, path_extension, file_name_of, path_file_name, guess_mime, guessed_mime, opt_str,
    decimal, decimal_string,
};

verus! {

broadcast use {vstd::utf8::encode_utf8_valid_utf8, vstd::utf8::encode_utf8_decode_utf8};

/// Lines per window.
pub const CHUNK_LINES: usize = 50;

/// Lines shared by consecutive windows.
pub const OVERLAP_LINES: usize = 5;

/// The language name for a file extension.
pub open spec fn language_for(ext: Option<Seq<char>>) -> Seq<char> {
    match ext {
        Some(e) => if e == "rs"@ {
            "rust"@
        } else if e == "py"@ {
            "python"@
        } else if e == "js"@ {
            "javascript"@
        } else if e == "ts"@ {
            "typescript"@
        } else if e == "go"@ {
            "go"@
        } else if e == "java"@ {
            "java"@
        } else if e == "c"@ {
            "c"@
        } else if e == "cpp"@ || e == "cc"@ || e == "cxx"@ {
            "cpp"@
        } else if e == "h"@ || e == "hpp"@ {
            "c_or_cpp"@
        } else if e == "toml"@ {
            "toml"@
        } else if e == "yaml"@ || e == "yml"@ {
            "yaml"@
        } else if e == "json"@ {
            "json"@
        } else {
            "text"@
        },
        None => "text"@,
    }
}

/// The languages of the known extensions: rs rust, py python, js
/// javascript, ts typescript, go go, java java, c c, cpp/cc/cxx cpp, h/hpp
/// c_or_cpp, toml toml, yaml/yml yaml, json json; any other extension, or
/// none, is text.
pub proof fn law_language_table(e: Seq<char>)
    ensures
        language_for(Some("rs"@)) == "rust"@,
        language_for(Some("py"@)) == "python"@,
        language_for(Some("js"@)) == "javascript"@,
        language_for(Some("ts"@)) == "typescript"@,
        language_for(Some("go"@)) == "go"@,
        language_for(Some("java"@)) == "java"@,
        language_for(Some("c"@)) == "c"@,
        language_for(Some("cpp"@)) == "cpp"@,
        language_for(Some("cc"@)) == "cpp"@,
        language_for(Some("cxx"@)) == "cpp"@,
        language_for(Some("h"@)) == "c_or_cpp"@,
        language_for(Some("hpp"@)) == "c_or_cpp"@,
        language_for(Some("toml"@)) == "toml"@,
        language_for(Some("yaml"@)) == "yaml"@,
        language_for(Some("yml"@)) == "yaml"@,
        language_for(Some("json"@)) == "json"@,
        (e != "rs"@ && e != "py"@ && e != "js"@ && e != "ts"@ && e != "go"@ && e != "java"@ && e != "c"@ && e != "cpp"@ && e != "cc"@ && e != "cxx"@ && e != "h"@ && e != "hpp"@ && e != "toml"@ && e != "yaml"@ && e != "yml"@ && e != "json"@) ==> language_for(Some(e)) == "text"@,
        language_for(None) == "text"@,
{
    reveal_strlit("c");
    reveal_strlit("c_or_cpp");
    reveal_strlit("cc");
    reveal_strlit("cpp");
    reveal_strlit("cxx");
    reveal_strlit("go");
    reveal_strlit("h");
    reveal_strlit("hpp");
    reveal_strlit("java");
    reveal_strlit("javascript");
    reveal_strlit("js");
    reveal_strlit("json");
    reveal_strlit("py");
    reveal_strlit("python");
    reveal_strlit("rs");
    reveal_strlit("rust");
    reveal_strlit("text");
    reveal_strlit("toml");
    reveal_strlit("ts");
    reveal_strlit("typescript");
    reveal_strlit("yaml");
    reveal_strlit("yml");
    assert("py"@[0] != "rs"@[0]);
    assert("js"@[0] != "rs"@[0]);
    assert("js"@[0] != "py"@[0]);
    assert("ts"@[0] != "rs"@[0]);
    assert("ts"@[0] != "py"@[0]);
    assert("ts"@[0] != "js"@[0]);
    assert("go"@[0] != "rs"@[0]);
    assert("go"@[0] != "py"@[0]);
    assert("go"@[0] != "js"@[0]);
    assert("go"@[0] != "ts"@[0]);
    assert("java"@.len() != "rs"@.len());
    assert("java"@.len() != "py"@.len());
    assert("java"@.len() != "js"@.len());
    assert("java"@.len() != "ts"@.len());
    assert("java"@.len() != "go"@.len());
    assert("c"@.len() != "rs"@.len());
    assert("c"@.len() != "py"@.len());
    assert("c"@.len() != "js"@.len());
    assert("c"@.len() != "ts"@.len());
    assert("c"@.len() != "go"@.len());
    assert("c"@.len() != "java"@.len());
    assert("cpp"@.len() != "rs"@.len());
    assert("cpp"@.len() != "py"@.len());
    assert("cpp"@.len() != "js"@.len());
    assert("cpp"@.len() != "ts"@.len());
    assert("cpp"@.len() != "go"@.len());
    assert("cpp"@.len() != "java"@.len());
    assert("cpp"@.len() != "c"@.len());
    assert("cc"@[0] != "rs"@[0]);
    assert("cc"@[0] != "py"@[0]);
    assert("cc"@[0] != "js"@[0]);
    assert("cc"@[0] != "ts"@[0]);
    assert("cc"@[0] != "go"@[0]);
    assert("cc"@.len() != "java"@.len());
    assert("cc"@.len() != "c"@.len());
    assert("cc"@.len() != "cpp"@.len());
    assert("cxx"@.len() != "rs"@.len());
    assert("cxx"@.len() != "py"@.len());
    assert("cxx"@.len() != "js"@.len());
    assert("cxx"@.len() != "ts"@.len());
    assert("cxx"@.len() != "go"@.len());
    assert("cxx"@.len() != "java"@.len());
    assert("cxx"@.len() != "c"@.len());
    assert("cxx"@[1] != "cpp"@[1]);
    assert("cxx"@.len() != "cc"@.len());
    assert("h"@.len() != "rs"@.len());
    assert("h"@.len() != "py"@.len());
    assert("h"@.len() != "js"@.len());
    assert("h"@.len() != "ts"@.len());
    assert("h"@.len() != "go"@.len());
    assert("h"@.len() != "java"@.len());
    assert("h"@[0] != "c"@[0]);
    assert("h"@.len() != "cpp"@.len());
    assert("h"@.len() != "cc"@.len());
    assert("h"@.len() != "cxx"@.len());
    assert("hpp"@.len() != "rs"@.len());
    assert("hpp"@.len() != "py"@.len());
    assert("hpp"@.len() != "js"@.len());
    assert("hpp"@.len() != "ts"@.len());
    assert("hpp"@.len() != "go"@.len());
    assert("hpp"@.len() != "java"@.len());
    assert("hpp"@.len() != "c"@.len());
    assert("hpp"@[0] != "cpp"@[0]);
    assert("hpp"@.len() != "cc"@.len());
    assert("hpp"@[0] != "cxx"@[0]);
    assert("hpp"@.len() != "h"@.len());
    assert("toml"@.len() != "rs"@.len());
    assert("toml"@.len() != "py"@.len());
    assert("toml"@.len() != "js"@.len());
    assert("toml"@.len() != "ts"@.len());
    assert("toml"@.len() != "go"@.len());
    assert("toml"@[0] != "java"@[0]);
    assert("toml"@.len() != "c"@.len());
    assert("toml"@.len() != "cpp"@.len());
    assert("toml"@.len() != "cc"@.len());
    assert("toml"@.len() != "cxx"@.len());
    assert("toml"@.len() != "h"@.len());
    assert("toml"@.len() != "hpp"@.len());
    assert("yaml"@.len() != "rs"@.len());
    assert("yaml"@.len() != "py"@.len());
    assert("yaml"@.len() != "js"@.len());
    assert("yaml"@.len() != "ts"@.len());
    assert("yaml"@.len() != "go"@.len());
    assert("yaml"@[0] != "java"@[0]);
    assert("yaml"@.len() != "c"@.len());
    assert("yaml"@.len() != "cpp"@.len());
    assert("yaml"@.len() != "cc"@.len());
    assert("yaml"@.len() != "cxx"@.len());
    assert("yaml"@.len() != "h"@.len());
    assert("yaml"@.len() != "hpp"@.len());
    assert("yaml"@[0] != "toml"@[0]);
    assert("yml"@.len() != "rs"@.len());
    assert("yml"@.len() != "py"@.len());
    assert("yml"@.len() != "js"@.len());
    assert("yml"@.len() != "ts"@.len());
    assert("yml"@.len() != "go"@.len());
    assert("yml"@.len() != "java"@.len());
    assert("yml"@.len() != "c"@.len());
    assert("yml"@[0] != "cpp"@[0]);
    assert("yml"@.len() != "cc"@.len());
    assert("yml"@[0] != "cxx"@[0]);
    assert("yml"@.len() != "h"@.len());
    assert("yml"@[0] != "hpp"@[0]);
    assert("yml"@.len() != "toml"@.len());
    assert("yml"@.len() != "yaml"@.len());
    assert("json"@.len() != "rs"@.len());
    assert("json"@.len() != "py"@.len());
    assert("json"@.len() != "js"@.len());
    assert("json"@.len() != "ts"@.len());
    assert("json"@.len() != "go"@.len());
    assert("json"@[1] != "java"@[1]);
    assert("json"@.len() != "c"@.len());
    assert("json"@.len() != "cpp"@.len());
    assert("json"@.len() != "cc"@.len());
    assert("json"@.len() != "cxx"@.len());
    assert("json"@.len() != "h"@.len());
    assert("json"@.len() != "hpp"@.len());
    assert("json"@[0] != "toml"@[0]);
    assert("json"@[0] != "yaml"@[0]);
    assert("json"@.len() != "yml"@.len());
}

/// The language of an optional file name (by its extension, as written).
pub open spec fn language_of(filename: Option<Seq<char>>) -> Seq<char> {
    match filename {
        Some(f) => language_for(path_extension(f)),
        None => "text"@,
    }
}

/// Language name detected from the file extension; `"text"` when unknown.
pub fn detect_language(filename: Option<&str>) -> (r: &'static str)
    ensures
        r@ == language_of(opt_str(filename)),
{
    let ext = match filename {
        Some(f) => extension_of(f),
        None => None,
    };
    let e = match &ext {
        Some(e) => e.as_str(),
        None => {
            proof {
                reveal_strlit("text");
            }
            return "text";
        },
    };
    proof {
        reveal_strlit("rs");
        reveal_strlit("py");
        reveal_strlit("js");
        reveal_strlit("ts");
        reveal_strlit("go");
        reveal_strlit("java");
        reveal_strlit("c");
        reveal_strlit("cpp");
        reveal_strlit("cc");
        reveal_strlit("cxx");
        reveal_strlit("h");
        reveal_strlit("hpp");
        reveal_strlit("toml");
        reveal_strlit("yaml");
        reveal_strlit("yml");
        reveal_strlit("json");
        reveal_strlit("rust");
        reveal_strlit("python");
        reveal_strlit("javascript");
        reveal_strlit("typescript");
        reveal_strlit("c_or_cpp");
        reveal_strlit("text");
    }
    if str_eq(e, "rs") {
        "rust"
    } else if str_eq(e, "py") {
        "python"
    } else if str_eq(e, "js") {
        "javascript"
    } else if str_eq(e, "ts") {
        "typescript"
    } else if str_eq(e, "go") {
        "go"
    } else if str_eq(e, "java") {
        "java"
    } else if str_eq(e, "c") {
        "c"
    } else if str_eq(e, "cpp") || str_eq(e, "cc") || str_eq(e, "cxx") {
        "cpp"
    } else if str_eq(e, "h") || str_eq(e, "hpp") {
        "c_or_cpp"
    } else if str_eq(e, "toml") {
        "toml"
    } else if str_eq(e, "yaml") || str_eq(e, "yml") {
        "yaml"
    } else if str_eq(e, "json") {
        "json"
    } else {
        "text"
    }
}

/// A line without its trailing carriage return.
pub open spec fn strip_cr(b: Seq<u8>) -> Seq<u8> {
    if b.len() > 0 && b.last() == 13u8 {
        b.drop_last()
    } else {
        b
    }
}

/// `str::lines`: pieces between line feeds, without a final empty piece,
/// and with the carriage return of a `"\r\n"` ending removed.
pub open spec fn lines_of(t: Seq<u8>) -> Seq<Seq<u8>> {
    let p = split(t, seq![10u8]);
    let kept = if p.len() > 0 && p.last().len() == 0 {
        p.drop_last()
    } else {
        p
    };
    Seq::new(
        kept.len(),
        |i: int|
            if i < p.len() - 1 {
                strip_cr(kept[i])
            } else {
                kept[i]
            },
    )
}

/// `text.lines()` as slices of `text`.
pub fn lines<'a>(text: &'a str) -> (r: Vec<&'a str>)
    ensures
        strs_bytes(r@) == lines_of(text.spec_bytes()),
{
    let nl = "\n";
    proof {
        reveal_strlit("\n");
        lemma_ascii_bytes(nl@);
        assert(nl.spec_bytes() =~= seq![10u8]);
        lemma_split_from_nonempty(text.spec_bytes(), seq![10u8], 0);
    }
    let pieces = split_str(text, nl);
    let ghost p = strs_bytes(pieces@);
    let n = pieces.len();
    let kept = if pieces[n - 1].as_bytes().len() == 0 {
        n - 1
    } else {
        n
    };
    let mut out: Vec<&'a str> = Vec::new();
    let mut i: usize = 0;
    while i < kept
        invariant
            p == strs_bytes(pieces@),
            p == split(text.spec_bytes(), seq![10u8]),
            n == p.len(),
            n > 0,
            kept == lines_of(text.spec_bytes()).len(),
            kept <= n,
            i <= kept,
            strs_bytes(out@) == lines_of(text.spec_bytes()).take(i as int),
        decreases kept - i,
    {
        let piece = pieces[i];
        let b = piece.as_bytes();
        let len = b.len();
        let ghost pc = piece.spec_bytes();
        proof {
            assert(pc == p[i as int]);
            is_char_boundary_start_end_of_seq(pc);
        }
        let line = if i < n - 1 && len > 0 && b[len - 1] == 13u8 {
            proof {
                is_char_boundary_iff_not_is_continuation_byte(pc, len - 1);
            }
            substr(piece, 0, len - 1)
        } else {
            piece
        };
        let ghost before = strs_bytes(out@);
        out.push(line);
        proof {
            assert(line.spec_bytes() == lines_of(text.spec_bytes())[i as int]);
            assert(strs_bytes(out@) =~= before.push(line.spec_bytes()));
            assert(lines_of(text.spec_bytes()).take(i + 1) =~= lines_of(text.spec_bytes()).take(
                i as int,
            ).push(lines_of(text.spec_bytes())[i as int]));
        }
        i = i + 1;
    }
    proof {
        assert(lines_of(text.spec_bytes()).take(kept as int) =~= lines_of(text.spec_bytes()));
    }
    out
}

/// `parts[from..to].join(sep)`.
pub fn join_strs(parts: &Vec<&str>, from: usize, to: usize, sep: &str) -> (r: String)
    requires
        from <= to <= parts@.len(),
    ensures
        bytes_of(r@) == join(strs_bytes(parts@).subrange(from as int, to as int), sep.spec_bytes()),
{
    let ghost all = strs_bytes(parts@);
    let mut acc = String::new();
    let mut k = from;
    proof {
        assert(bytes_of(acc@) =~= seq![]);
        assert(all.subrange(from as int, from as int).len() == 0);
    }
    while k < to
        invariant
            all == strs_bytes(parts@),
            from <= k <= to <= parts@.len(),
            bytes_of(acc@) == join(all.subrange(from as int, k as int), sep.spec_bytes()),
        decreases to - k,
    {
        let ghost pre = all.subrange(from as int, k as int);
        let ghost post = all.subrange(from as int, k + 1);
        proof {
            assert(post.drop_last() =~= pre);
            assert(post.last() == parts@[k as int].spec_bytes());
        }
        if k > from {
            push_str(&mut acc, sep);
        }
        push_str(&mut acc, parts[k]);
        k = k + 1;
        proof {
            if k == from + 1 {
                assert(bytes_of(acc@) =~= post[0]);
            }
        }
    }
    acc
}

/// Overlapping windows of lines starting at line `start`, numbered from
/// `chunk`.
pub open spec fn chunks_from(lines: Seq<Seq<u8>>, start: int, chunk: int) -> Seq<SectionView>
    decreases lines.len() - start,
{
    if start < 0 || start >= lines.len() {
        seq![]
    } else {
        let end = if start + 50 < lines.len() {
            start + 50
        } else {
            lines.len() as int
        };
        let sec = SectionView {
            heading: Some("Chunk "@ + decimal(chunk as nat)),
            content: decode_utf8(join(lines.subrange(start, end), seq![10u8])),
            level: 1,
            start_line: start,
            end_line: end,
        };
        if end >= lines.len() {
            seq![sec]
        } else {
            seq![sec] + chunks_from(lines, end - 5, chunk + 1)
        }
    }
}

/// Splits many lines into windows of [`CHUNK_LINES`] lines where each
/// window repeats the last [`OVERLAP_LINES`] lines of the previous one.
pub fn build_chunks(lines: &Vec<&str>) -> (r: Vec<Section>)
    ensures
        sections_view(r@) == chunks_from(strs_bytes(lines@), 0, 1),
{
    let ghost ls = strs_bytes(lines@);
    let total = lines.len();
    let mut sections: Vec<Section> = Vec::new();
    let mut start: usize = 0;
    let mut chunk: usize = 1;
    let nl = "\n";
    let prefix = "Chunk ";
    proof {
        reveal_strlit("\n");
        reveal_strlit("Chunk ");
        lemma_ascii_bytes(nl@);
        assert(nl.spec_bytes() =~= seq![10u8]);
        assert(sections_view(sections@) =~= Seq::<SectionView>::empty());
    }
    while start < total
        invariant_except_break
            chunks_from(ls, 0, 1) == sections_view(sections@) + chunks_from(
                ls,
                start as int,
                chunk as int,
            ),
        invariant
            start <= total,
            ls == strs_bytes(lines@),
            total == ls.len(),
            nl.spec_bytes() == seq![10u8],
            prefix@ == "Chunk "@,
            start < total ==> 1 <= chunk <= start + 1,
            chunk <= total + 1,
        ensures
            sections_view(sections@) == chunks_from(ls, 0, 1),
        decreases total - start,
    {
        let end = if total - start > CHUNK_LINES {
            start + CHUNK_LINES
        } else {
            total
        };
        let content = join_strs(lines, start, end, nl);
        let mut heading = String::from_str(prefix);
        let num = decimal_string(chunk);
        heading.append(num.as_str());
        let ghost before = sections_view(sections@);
        let sec = Section {
            heading: Some(heading),
            content,
            level: 1,
            start_line: start,
            end_line: end,
        };
        proof {
            assert(content@ == decode_utf8(join(ls.subrange(start as int, end as int), seq![10u8])));
        }
        sections.push(sec);
        proof {
            assert(sections_view(sections@) =~= before.push(section_view_of(sec)));
        }
        if end >= total {
            proof {
                assert(sections_view(sections@) + chunks_from(ls, total as int, chunk as int) =~= sections_view(sections@));
            }
            break;
        }
        chunk = chunk + 1;
        start = end - OVERLAP_LINES;
    }
    sections
}

spec fn section_view_of(s: Section) -> SectionView {
    crate::document::section_view(s)
}

/// What the code parser gives for valid UTF-8 `t`.
pub open spec fn code_doc(t: Seq<u8>, filename: Option<Seq<char>>) -> DocView {
    let ls = lines_of(t);
    DocView {
        title: match filename {
            Some(f) => path_file_name(f),
            None => None,
        },
        content: decode_utf8(t),
        mime_type: match filename {
            Some(f) => guessed_mime(f),
            None => "text/plain"@,
        },
        sections: if ls.len() <= 50 {
            seq![
                SectionView {
                    heading: None,
                    content: decode_utf8(t),
                    level: 0,
                    start_line: 0,
                    end_line: ls.len() as int,
                },
            ]
        } else {
            chunks_from(ls, 0, 1)
        },
        metadata: match filename {
            Some(f) => map!["language"@ => language_of(filename), "filename"@ => f],
            None => map!["language"@ => language_of(filename)],
        },
    }
}

/// What the code parser gives for any input.
pub open spec fn code_spec(input: Seq<u8>, filename: Option<Seq<char>>) -> Result<
    DocView,
    (ErrorKind, Seq<char>),
> {
    if valid_utf8(input) {
        Ok(code_doc(input, filename))
    } else {
        Err((ErrorKind::Encoding, utf8_error_text(input)))
    }
}

/// Parser for source-code files.
pub struct CodeParser;

impl DocumentParser for CodeParser {
    /// MIME types handled.
    fn mime_types(&self) -> (r: Vec<&'static str>)
        ensures
            strs_chars(r@) == seq!["text/x-rust"@, "text/x-python"@, "application/javascript"@, "text/javascript"@, "text/typescript"@, "text/x-go"@, "text/x-java-source"@, "text/x-csrc"@, "text/x-c++src"@],
    {
        let mut v: Vec<&'static str> = Vec::new();
        v.push("text/x-rust");
        v.push("text/x-python");
        v.push("application/javascript");
        v.push("text/javascript");
        v.push("text/typescript");
        v.push("text/x-go");
        v.push("text/x-java-source");
        v.push("text/x-csrc");
        v.push("text/x-c++src");
        proof {
            reveal_strlit("text/x-rust");
            reveal_strlit("text/x-python");
            reveal_strlit("application/javascript");
            reveal_strlit("text/javascript");
            reveal_strlit("text/typescript");
            reveal_strlit("text/x-go");
            reveal_strlit("text/x-java-source");
            reveal_strlit("text/x-csrc");
            reveal_strlit("text/x-c++src");
            assert(strs_chars(v@) =~= seq!["text/x-rust"@, "text/x-python"@, "application/javascript"@, "text/javascript"@, "text/typescript"@, "text/x-go"@, "text/x-java-source"@, "text/x-csrc"@, "text/x-c++src"@]);
        }
        v
    }

    /// File extensions handled.
    fn extensions(&self) -> (r: Vec<&'static str>)
        ensures
            strs_chars(r@) == seq!["rs"@, "py"@, "js"@, "ts"@, "go"@, "java"@, "c"@, "cpp"@, "cc"@, "h"@, "hpp"@, "toml"@, "yaml"@, "yml"@],
    {
        let mut v: Vec<&'static str> = Vec::new();
        v.push("rs");
        v.push("py");
        v.push("js");
        v.push("ts");
        v.push("go");
        v.push("java");
        v.push("c");
        v.push("cpp");
        v.push("cc");
        v.push("h");
        v.push("hpp");
        v.push("toml");
        v.push("yaml");
        v.push("yml");
        proof {
            reveal_strlit("rs");
            reveal_strlit("py");
            reveal_strlit("js");
            reveal_strlit("ts");
            reveal_strlit("go");
            reveal_strlit("java");
            reveal_strlit("c");
            reveal_strlit("cpp");
            reveal_strlit("cc");
            reveal_strlit("h");
            reveal_strlit("hpp");
            reveal_strlit("toml");
            reveal_strlit("yaml");
            reveal_strlit("yml");
            assert(strs_chars(v@) =~= seq!["rs"@, "py"@, "js"@, "ts"@, "go"@, "java"@, "c"@, "cpp"@, "cc"@, "h"@, "hpp"@, "toml"@, "yaml"@, "yml"@]);
        }
        v
    }

    /// Parses source code: one section for short files, overlapping line
    /// windows for long ones.
    fn parse(&self, input: &[u8], filename: Option<&str>) -> (r: Result<ParsedDocument, RagError>)
        ensures
            result_view(r) == code_spec(input@, opt_str(filename)),
    {
        let text = match utf8_str(input) {
            Ok(t) => t,
            Err(m) => {
                return Err(RagError::Encoding(m));
            },
        };
        let lang = detect_language(filename);
        let ls = lines(text);
        let total = ls.len();
        let sections = if total <= CHUNK_LINES {
            let mut v: Vec<Section> = Vec::new();
            v.push(Section {
                heading: None,
                content: owned(text),
                level: 0,
                start_line: 0,
                end_line: total,
            });
            proof {
                assert(sections_view(v@) =~= seq![section_view_of(v@[0])]);
            }
            v
        } else {
            build_chunks(&ls)
        };
        let title = match filename {
            Some(f) => file_name_of(f),
            None => None,
        };
        proof {
            reveal_strlit("text/plain");
            reveal_strlit("language");
            reveal_strlit("filename");
        }
        let mime = match filename {
            Some(f) => guess_mime(f),
            None => String::from_str("text/plain"),
        };
        let mut metadata = Metadata::new();
        metadata.insert(String::from_str("language"), String::from_str(lang));
        if let Some(f) = filename {
            metadata.insert(String::from_str("filename"), String::from_str(f));
        }
        let doc = ParsedDocument { title, content: owned(text), mime_type: mime, sections, metadata };
        proof {
            let fv = opt_str(filename);
            match fv {
                Some(f) => {
                    assert(doc.metadata@ =~= map!["language"@ => language_of(fv), "filename"@ => f]);
                },
                None => {
                    assert(doc.metadata@ =~= map!["language"@ => language_of(fv)]);
                },
            }
        }
        Ok(doc)
    }
}

} // verus!
