//! Categories of the facts kept in working memory.
use vstd::prelude::*;
use vstd::string::*;
use crate::text::str_eq;

verus! {

/// The semantic type of a stored fact.
#[derive(Debug, Clone, Copy, PartialEq, Eq, Structural)]
pub enum FactCategory {
    Preference,
    Fact,
    Pattern,
    Correction,
    Environment,
}

/// The lowercase name of a category.
pub open spec fn category_name(c: FactCategory) -> Seq<char> {
    match c {
        FactCategory::Preference => "preference"@,
        FactCategory::Fact => "fact"@,
        FactCategory::Pattern => "pattern"@,
        FactCategory::Correction => "correction"@,
        FactCategory::Environment => "environment"@,
    }
}

/// The category with a given name.
pub open spec fn category_named(s: Seq<char>) -> Option<FactCategory> {
    if s == "preference"@ {
        Some(FactCategory::Preference)
    } else if s == "fact"@ {
        Some(FactCategory::Fact)
    } else if s == "pattern"@ {
        Some(FactCategory::Pattern)
    } else if s == "correction"@ {
        Some(FactCategory::Correction)
    } else if s == "environment"@ {
        Some(FactCategory::Environment)
    } else {
        None
    }
}

impl FactCategory {
    /// The lowercase name, as displayed and stored.
    pub fn as_str(&self) -> (r: &'static str)
        ensures
            r@ == category_name(*self),
    {
        match self {
            FactCategory::Preference => "preference",
            FactCategory::Fact => "fact",
            FactCategory::Pattern => "pattern",
            FactCategory::Correction => "correction",
            FactCategory::Environment => "environment",
        }
    }

    /// The lowercase name as an owned string.
    pub fn to_string(&self) -> (r: String)
        ensures
            r@ == category_name(*self),
    {
        String::from_str(self.as_str())
    }
}

/// Parses a category name (exact, lowercase); anything else is an error
/// naming the text.
pub fn parse_category(s: &str) -> (r: Result<FactCategory, String>)
    ensures
        category_named(s@) matches Some(c) ==> r == Ok::<FactCategory, String>(c),
        category_named(s@) is None ==> (r matches Err(m) && m@ == "unknown fact category: '"@ + s@
            + "'"@),
{
    proof {
        reveal_strlit("preference");
        reveal_strlit("fact");
        reveal_strlit("pattern");
        reveal_strlit("correction");
        reveal_strlit("environment");
    }
    if str_eq(s, "preference") {
        Ok(FactCategory::Preference)
    } else if str_eq(s, "fact") {
        Ok(FactCategory::Fact)
    } else if str_eq(s, "pattern") {
        Ok(FactCategory::Pattern)
    } else if str_eq(s, "correction") {
        Ok(FactCategory::Correction)
    } else if str_eq(s, "environment") {
        Ok(FactCategory::Environment)
    } else {
        let mut m = String::from_str("unknown fact category: '");
        m.append(s);
        m.append("'");
        Err(m)
    }
}

impl std::str::FromStr for FactCategory {
    type Err = String;

    fn from_str(s: &str) -> (r: Result<FactCategory, String>)
        ensures
            category_named(s@) matches Some(c) ==> r == Ok::<FactCategory, String>(c),
            category_named(s@) is None ==> (r matches Err(m) && m@ == "unknown fact category: '"@
                + s@ + "'"@),
    {
        parse_category(s)
    }
}

/// Parsing the displayed name of a category gives the category back.
pub proof fn law_category_roundtrip(c: FactCategory)
    ensures
        category_named(category_name(c)) == Some(c),
{
    reveal_strlit("preference");
    reveal_strlit("fact");
    reveal_strlit("pattern");
    reveal_strlit("correction");
    reveal_strlit("environment");
    assert("preference"@.len() == 10 && "fact"@.len() == 4 && "pattern"@.len() == 7);
    assert("correction"@.len() == 10 && "environment"@.len() == 11);
    assert("correction"@[0] != "preference"@[0]);
}

/// A name that parses is the displayed name of the category it gives.
pub proof fn law_category_names(s: Seq<char>)
    ensures
        category_named(s) matches Some(c) ==> category_name(c) == s,
{
}

} // verus!
