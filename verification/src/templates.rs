//! Prompt templates: `{{variable}}` placeholders replaced by values.
use vstd::prelude::*;
use vstd::utf8::*;
use vstd::string::*;
use crate::text::{
    bytes_of, find_scan, find_from, matches_at, substr, push_str, str_eq, lemma_find_scan_props,
    lemma_match_start_boundary, lemma_match_boundaries,
};

verus! {

broadcast use {vstd::utf8::encode_utf8_valid_utf8, vstd::utf8::encode_utf8_decode_utf8};

/// `t[k..]` with every occurrence of the nonempty `p` replaced by `r`,
/// occurrences taken leftmost first and not overlapping (`str::replace`).
pub open spec fn replace_from(t: Seq<u8>, p: Seq<u8>, r: Seq<u8>, k: int) -> Seq<u8>
    decreases t.len() - k,
{
    if p.len() == 0 || k < 0 || k > t.len() {
        seq![]
    } else {
        match find_scan(t, p, k) {
            None => t.subrange(k, t.len() as int),
            Some(i) => {
                proof {
                    lemma_find_scan_props(t, p, k);
                }
                t.subrange(k, i) + r + replace_from(t, p, r, i + p.len())
            },
        }
    }
}

/// `t.replace(p, r)` for a nonempty pattern.
pub fn replace_all(t: &str, p: &str, r: &str) -> (res: String)
    requires
        p@.len() > 0,
    ensures
        bytes_of(res@) == replace_from(t.spec_bytes(), p.spec_bytes(), r.spec_bytes(), 0),
{
    let tb = t.as_bytes();
    let pb = p.as_bytes();
    let tl = tb.len();
    let pl = pb.len();
    let ghost whole = replace_from(t.spec_bytes(), p.spec_bytes(), r.spec_bytes(), 0);
    proof {
        is_char_boundary_start_end_of_seq(t.spec_bytes());
        assert(pb@.len() > 0);
    }
    let mut out = String::new();
    let mut k: usize = 0;
    loop
        invariant
            tb@ == t.spec_bytes(),
            pb@ == p.spec_bytes(),
            tl == tb@.len(),
            pl == pb@.len(),
            pl > 0,
            k <= tl,
            is_char_boundary(t.spec_bytes(), k as int),
            whole == replace_from(t.spec_bytes(), p.spec_bytes(), r.spec_bytes(), 0),
            whole == bytes_of(out@) + replace_from(
                t.spec_bytes(),
                p.spec_bytes(),
                r.spec_bytes(),
                k as int,
            ),
        decreases tl - k,
    {
        proof {
            lemma_find_scan_props(tb@, pb@, k as int);
            is_char_boundary_start_end_of_seq(t.spec_bytes());
        }
        match find_from(tb, pb, k) {
            None => {
                let rest = substr(t, k, tl);
                push_str(&mut out, rest);
                proof {
                    assert(bytes_of(out@) =~= whole);
                }
                return out;
            },
            Some(i) => {
                proof {
                    lemma_match_start_boundary(tb@, i as int, pb@);
                    lemma_match_boundaries(tb@, i as int, pb@);
                }
                let piece = substr(t, k, i);
                let ghost before = bytes_of(out@);
                push_str(&mut out, piece);
                push_str(&mut out, r);
                proof {
                    assert(bytes_of(out@) + replace_from(
                        t.spec_bytes(),
                        p.spec_bytes(),
                        r.spec_bytes(),
                        i + pl,
                    ) =~= before + replace_from(
                        t.spec_bytes(),
                        p.spec_bytes(),
                        r.spec_bytes(),
                        k as int,
                    ));
                }
                k = i + pl;
            },
        }
    }
}

/// The placeholder for a variable: `{{name}}`.
pub open spec fn placeholder(name: Seq<char>) -> Seq<char> {
    "{{"@ + name + "}}"@
}

/// The template after substituting the first `k` variables, in order.
pub open spec fn substitute(t: Seq<u8>, vars: Seq<(Seq<char>, Seq<char>)>, k: int) -> Seq<u8>
    decreases k,
{
    if k <= 0 || k > vars.len() {
        t
    } else {
        replace_from(
            substitute(t, vars, k - 1),
            bytes_of(placeholder(vars[k - 1].0)),
            bytes_of(vars[k - 1].1),
            0,
        )
    }
}

/// A variable has a value.
pub open spec fn has_var(vars: Seq<(Seq<char>, Seq<char>)>, name: Seq<char>) -> bool {
    exists|i: int| 0 <= i < vars.len() && (#[trigger] vars[i]).0 == name
}

/// The first required variable without a value.
pub open spec fn first_missing(
    required: Seq<Seq<char>>,
    vars: Seq<(Seq<char>, Seq<char>)>,
    k: int,
) -> Option<Seq<char>>
    decreases required.len() - k,
{
    if k < 0 || k >= required.len() {
        None
    } else if !has_var(vars, required[k]) {
        Some(required[k])
    } else {
        first_missing(required, vars, k + 1)
    }
}

/// The characters of each pair.
pub open spec fn pairs_view(v: Seq<(String, String)>) -> Seq<(Seq<char>, Seq<char>)> {
    v.map_values(|p: (String, String)| (p.0@, p.1@))
}

/// What rendering gives: an error naming the first missing required
/// variable, else the template with each variable substituted in turn.
pub open spec fn render_spec(
    template: Seq<char>,
    required: Seq<Seq<char>>,
    vars: Seq<(Seq<char>, Seq<char>)>,
) -> Result<Seq<u8>, Seq<char>> {
    match first_missing(required, vars, 0) {
        Some(v) => Err("missing required variable: "@ + v),
        None => Ok(substitute(bytes_of(template), vars, vars.len() as int)),
    }
}

/// Abstract value of a rendering result: the text's bytes or the error.
pub open spec fn render_view(r: Result<String, String>) -> Result<Seq<u8>, Seq<char>> {
    match r {
        Ok(s) => Ok(bytes_of(s@)),
        Err(m) => Err(m@),
    }
}

/// Whether `name` has a value in `vars`.
fn lookup(vars: &Vec<(String, String)>, name: &str) -> (r: bool)
    ensures
        r == has_var(pairs_view(vars@), name@),
{
    let ghost pv = pairs_view(vars@);
    let mut i: usize = 0;
    while i < vars.len()
        invariant
            pv == pairs_view(vars@),
            i <= vars@.len(),
            forall|j: int| 0 <= j < i ==> (#[trigger] pv[j]).0 != name@,
        decreases vars@.len() - i,
    {
        if str_eq(vars[i].0.as_str(), name) {
            proof {
                assert(pv[i as int].0 == name@);
            }
            return true;
        }
        i = i + 1;
    }
    false
}

/// Substitutes `{{variable}}` placeholders, variable after variable in the
/// order given.  Every required variable must have a value; the first that
/// has none is reported.
pub fn render_template_str(
    template: &str,
    required_vars: &Vec<String>,
    vars: &Vec<(String, String)>,
) -> (r: Result<String, String>)
    ensures
        render_view(r) == render_spec(
            template@,
            required_vars@.map_values(|s: String| s@),
            pairs_view(vars@),
        ),
{
    let ghost req = required_vars@.map_values(|s: String| s@);
    let ghost pv = pairs_view(vars@);
    let mut k: usize = 0;
    while k < required_vars.len()
        invariant
            req == required_vars@.map_values(|s: String| s@),
            pv == pairs_view(vars@),
            k <= required_vars@.len(),
            first_missing(req, pv, 0) == first_missing(req, pv, k as int),
        decreases required_vars@.len() - k,
    {
        if !lookup(vars, required_vars[k].as_str()) {
            proof {
                reveal_strlit("missing required variable: ");
            }
            let mut m = String::from_str("missing required variable: ");
            m.append(required_vars[k].as_str());
            return Err(m);
        }
        k = k + 1;
    }
    let mut result = String::from_str(template);
    let mut i: usize = 0;
    proof {
        reveal_strlit("{{");
        reveal_strlit("}}");
    }
    while i < vars.len()
        invariant
            pv == pairs_view(vars@),
            i <= vars@.len(),
            bytes_of(result@) == substitute(bytes_of(template@), pv, i as int),
        decreases vars@.len() - i,
    {
        let mut ph = String::from_str("{{");
        ph.append(vars[i].0.as_str());
        ph.append("}}");
        proof {
            reveal_strlit("{{");
            reveal_strlit("}}");
            assert(ph@ == placeholder(pv[i as int].0));
            assert(ph@.len() >= 4);
        }
        let next = replace_all(result.as_str(), ph.as_str(), vars[i].1.as_str());
        result = next;
        i = i + 1;
    }
    Ok(result)
}

/// A template the store is seeded with.
pub struct BuiltinTemplate {
    pub name: &'static str,
    pub description: &'static str,
    pub template: &'static str,
    pub variables: Vec<&'static str>,
    pub category: &'static str,
}

/// Abstract value of a seeded template: name, description, text, variables
/// and category.
pub open spec fn builtin_view(b: BuiltinTemplate) -> (Seq<char>, Seq<char>, Seq<char>, Seq<Seq<char>>, Seq<char>) {
    (b.name@, b.description@, b.template@, b.variables@.map_values(|v: &str| v@), b.category@)
}

/// The templates the store is seeded with.
pub open spec fn builtin_spec() -> Seq<(Seq<char>, Seq<char>, Seq<char>, Seq<Seq<char>>, Seq<char>)> {
    seq![
        (
            "code-review"@,
            "Review code for bugs, style issues, and improvements"@,
            "Please review the following {{language}} code for bugs, style issues, and improvements:\n\n```{{language}}\n{{code}}\n```"@,
            seq!["language"@, "code"@],
            "coding"@,
        ),
        (
            "explain"@,
            "Explain a topic at a specified detail level"@,
            "Please explain {{topic}} at {{detail_level}} detail level."@,
            seq!["topic"@, "detail_level"@],
            "education"@,
        ),
        (
            "summarize"@,
            "Summarize a piece of content"@,
            "Please summarize the following {{content_type}}:\n\n{{content}}"@,
            seq!["content_type"@, "content"@],
            "general"@,
        ),
        (
            "translate"@,
            "Translate content between languages"@,
            "Please translate the following text from {{source_lang}} to {{target_lang}}:\n\n{{content}}"@,
            seq!["source_lang"@, "target_lang"@, "content"@],
            "language"@,
        ),
    ]
}

/// One seeded template.
fn builtin(
    name: &'static str,
    description: &'static str,
    template: &'static str,
    variables: Vec<&'static str>,
    category: &'static str,
) -> (r: BuiltinTemplate)
    ensures
        builtin_view(r) == (name@, description@, template@, variables@.map_values(|v: &str| v@), category@),
{
    BuiltinTemplate { name, description, template, variables, category }
}

/// The templates the store is seeded with: code review, explanation,
/// summary and translation, each with the variables its text uses.
pub fn builtin_templates() -> (r: Vec<BuiltinTemplate>)
    ensures
        r@.map_values(|b: BuiltinTemplate| builtin_view(b)) == builtin_spec(),
{
    let b0 = builtin(
        "code-review",
        "Review code for bugs, style issues, and improvements",
        "Please review the following {{language}} code for bugs, style issues, and improvements:\n\n```{{language}}\n{{code}}\n```",
        vec!["language", "code"],
        "coding",
    );
    let b1 = builtin(
        "explain",
        "Explain a topic at a specified detail level",
        "Please explain {{topic}} at {{detail_level}} detail level.",
        vec!["topic", "detail_level"],
        "education",
    );
    let b2 = builtin(
        "summarize",
        "Summarize a piece of content",
        "Please summarize the following {{content_type}}:\n\n{{content}}",
        vec!["content_type", "content"],
        "general",
    );
    let b3 = builtin(
        "translate",
        "Translate content between languages",
        "Please translate the following text from {{source_lang}} to {{target_lang}}:\n\n{{content}}",
        vec!["source_lang", "target_lang", "content"],
        "language",
    );
    proof {
        assert(b0.variables@.map_values(|v: &str| v@) =~= seq!["language"@, "code"@]);
        assert(b1.variables@.map_values(|v: &str| v@) =~= seq!["topic"@, "detail_level"@]);
        assert(b2.variables@.map_values(|v: &str| v@) =~= seq!["content_type"@, "content"@]);
        assert(b3.variables@.map_values(|v: &str| v@) =~= seq![
            "source_lang"@,
            "target_lang"@,
            "content"@,
        ]);
        assert(builtin_view(b0) == builtin_spec()[0]);
        assert(builtin_view(b1) == builtin_spec()[1]);
        assert(builtin_view(b2) == builtin_spec()[2]);
        assert(builtin_view(b3) == builtin_spec()[3]);
    }
    let mut r: Vec<BuiltinTemplate> = Vec::new();
    r.push(b0);
    r.push(b1);
    r.push(b2);
    r.push(b3);
    proof {
        assert(r@.map_values(|b: BuiltinTemplate| builtin_view(b)) =~= builtin_spec());
    }
    r
}

/// Replacing a pattern that does not occur leaves the text as it is.
pub proof fn law_replace_absent(t: Seq<u8>, p: Seq<u8>, r: Seq<u8>)
    requires
        p.len() > 0,
        !crate::text::contains(t, p),
    ensures
        replace_from(t, p, r, 0) == t,
{
    crate::text::lemma_contains_find(t, p);
    assert(t.subrange(0, t.len() as int) =~= t);
}

/// Replacing a pattern by itself leaves the text as it is.
pub proof fn law_replace_identity(t: Seq<u8>, p: Seq<u8>, k: int)
    requires
        p.len() > 0,
        0 <= k <= t.len(),
    ensures
        replace_from(t, p, p, k) == t.subrange(k, t.len() as int),
    decreases t.len() - k,
{
    lemma_find_scan_props(t, p, k);
    match find_scan(t, p, k) {
        None => {},
        Some(i) => {
            law_replace_identity(t, p, i + p.len());
            assert(t.subrange(i, i + p.len()) == p);
            assert(t.subrange(k, i) + p + t.subrange(i + p.len(), t.len() as int) =~= t.subrange(
                k,
                t.len() as int,
            ));
        },
    }
}

} // verus!
