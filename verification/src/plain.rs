//! Plain-text documents: one section per blank-line separated paragraph.
use vstd::prelude::*;
use vstd::utf8::*;
use vstd::string::*;
use crate::text::{
    bytes_of, trim, trim_chars, trim_bytes, utf8_str, utf8_error_text, owned, count_newlines,
    nl_count, lemma_nl_count_le, lemma_trim_bytes_len, lemma_ascii_bytes,
};
use crate::split::{split, split_str, strs_bytes, sum_lens, join, lemma_split_join, lemma_join_len,
    lemma_sum_lens_nonneg};
use crate::document::{
    ParsedDocument, Section, SectionView, DocView, RagError, ErrorKind, result_view, metadata_with,
};
use crate::paths::{stem, stem_spec, opt_str};

verus! {

broadcast use {vstd::utf8::encode_utf8_valid_utf8, vstd::utf8::encode_utf8_decode_utf8};

/// Sections for paragraphs `paras[k..]`, the first starting at line `line`:
/// each nonblank paragraph, trimmed, spans its own lines; a blank one
/// advances the line counter by two.
pub open spec fn plain_sections(paras: Seq<Seq<u8>>, k: int, line: int) -> Seq<SectionView>
    decreases paras.len() - k,
{
    if k < 0 || k >= paras.len() {
        seq![]
    } else {
        let c = trim_bytes(paras[k]);
        if c.len() == 0 {
            plain_sections(paras, k + 1, line + 2)
        } else {
            let pl = nl_count(c) + 1;
            seq![
                SectionView {
                    heading: None,
                    content: decode_utf8(c),
                    level: 0,
                    start_line: line,
                    end_line: line + pl,
                },
            ] + plain_sections(paras, k + 1, line + pl + 1)
        }
    }
}

/// The blank-line separator.
pub open spec fn paragraph_sep() -> Seq<u8> {
    seq![10u8, 10u8]
}

/// What the plain-text parser gives for valid UTF-8 `t`.
pub open spec fn plain_doc(t: Seq<u8>, filename: Option<Seq<char>>) -> DocView {
    DocView {
        title: stem_spec(filename),
        content: decode_utf8(t),
        mime_type: "text/plain"@,
        sections: plain_sections(split(t, paragraph_sep()), 0, 0),
        metadata: map!["parser"@ => "text"@],
    }
}

/// What the plain-text parser gives for any input.
pub open spec fn plain_spec(input: Seq<u8>, filename: Option<Seq<char>>) -> Result<
    DocView,
    (ErrorKind, Seq<char>),
> {
    if valid_utf8(input) {
        Ok(plain_doc(input, filename))
    } else {
        Err((ErrorKind::Encoding, utf8_error_text(input)))
    }
}

/// Parses plain text: each paragraph (separated by a blank line) becomes a
/// section with its line span.
pub fn parse_plain(input: &[u8], filename: Option<&str>) -> (r: Result<ParsedDocument, RagError>)
    requires
        input@.len() <= isize::MAX,
    ensures
        result_view(r) == plain_spec(input@, opt_str(filename)),
{
    let text = match utf8_str(input) {
        Ok(t) => t,
        Err(m) => {
            return Err(RagError::Encoding(m));
        },
    };
    let ghost t = input@;
    let sep = "\n\n";
    proof {
        reveal_strlit("\n\n");
        lemma_ascii_bytes(sep@);
        assert(sep.spec_bytes() =~= paragraph_sep());
    }
    let paras = split_str(text, sep);
    let ghost pb = strs_bytes(paras@);
    proof {
        lemma_split_join(t, paragraph_sep());
        lemma_join_len(pb, paragraph_sep());
        assert(paragraph_sep().len() == 2);
        crate::split::lemma_split_from_nonempty(t, paragraph_sep(), 0);
    }
    let mut sections: Vec<Section> = Vec::new();
    let mut line_num: usize = 0;
    let mut k: usize = 0;
    proof {
        assert(sections_view_seq(sections@) =~= Seq::<SectionView>::empty());
    }
    while k < paras.len()
        invariant
            pb == strs_bytes(paras@),
            pb == split(t, paragraph_sep()),
            pb.len() > 0,
            sum_lens(pb) + (pb.len() - 1) * 2 == t.len(),
            t.len() <= isize::MAX,
            k <= pb.len(),
            line_num <= sum_lens(pb.take(k as int)) + 2 * k,
            plain_sections(pb, 0, 0) == sections_view_seq(sections@) + plain_sections(
                pb,
                k as int,
                line_num as int,
            ),
        decreases pb.len() - k,
    {
        let para = paras[k];
        let content = trim(para);
        let ghost c = trim_bytes(para.spec_bytes());
        proof {
            assert(pb[k as int] == para.spec_bytes());
            assert(content.spec_bytes() == c);
            lemma_trim_bytes_len(para.spec_bytes());
            lemma_sum_lens_prefix(pb, k as int);
            lemma_sum_lens_nonneg(pb);
            assert(sum_lens(pb.take(k + 1)) + 2 * (k + 1) <= t.len() + 2) by (nonlinear_arith)
                requires
                    sum_lens(pb.take(k + 1)) <= sum_lens(pb),
                    sum_lens(pb) + (pb.len() - 1) * 2 == t.len(),
                    k + 1 <= pb.len(),
            ;
        }
        let ghost before = sections_view_seq(sections@);
        if content.as_bytes().len() == 0 {
            line_num = line_num + 2;
        } else {
            let nl = count_newlines(content);
            proof {
                lemma_nl_count_le(c);
            }
            let para_lines = nl + 1;
            let sec = Section {
                heading: None,
                content: owned(content),
                level: 0,
                start_line: line_num,
                end_line: line_num + para_lines,
            };
            sections.push(sec);
            proof {
                assert(sections_view_seq(sections@) =~= before.push(SectionView {
                    heading: None,
                    content: decode_utf8(c),
                    level: 0,
                    start_line: line_num as int,
                    end_line: line_num + para_lines,
                }));
            }
            line_num = line_num + para_lines + 1;
        }
        k = k + 1;
    }
    let title = stem(filename);
    let metadata = metadata_with("parser", "text");
    proof {
        reveal_strlit("parser");
        reveal_strlit("text");
        reveal_strlit("text/plain");
    }
    let doc = ParsedDocument {
        title,
        content: owned(text),
        mime_type: String::from_str("text/plain"),
        sections,
        metadata,
    };
    proof {
        assert(crate::document::sections_view(doc.sections@) =~= sections_view_seq(sections@));
    }
    Ok(doc)
}

/// Section views of a list of sections.
pub open spec fn sections_view_seq(v: Seq<Section>) -> Seq<SectionView> {
    crate::document::sections_view(v)
}

proof fn lemma_sum_lens_prefix(s: Seq<Seq<u8>>, k: int)
    requires
        0 <= k < s.len(),
    ensures
        sum_lens(s.take(k + 1)) == sum_lens(s.take(k)) + s[k].len(),
        sum_lens(s.take(k + 1)) <= sum_lens(s),
{
    assert(s.take(k + 1).drop_last() =~= s.take(k));
    crate::split::lemma_sum_lens_window(s, 0, k + 1);
    assert(s.subrange(0, k + 1) =~= s.take(k + 1));
}

} // verus!
