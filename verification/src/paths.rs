//! File-name helpers (extension, stem, name), case folding, MIME guessing
//! and decimal formatting used by the parsers.
use vstd::prelude::*;
use vstd::string::*;
use crate::document::opt_chars;

verus! {

/// What `std::path::Path::extension` gives for a file name (as text).
pub uninterp spec fn path_extension(f: Seq<char>) -> Option<Seq<char>>;

/// What `std::path::Path::file_stem` gives for a file name (as text).
pub uninterp spec fn path_file_stem(f: Seq<char>) -> Option<Seq<char>>;

/// What `std::path::Path::file_name` gives for a file name (as text).
pub uninterp spec fn path_file_name(f: Seq<char>) -> Option<Seq<char>>;

/// What `str::to_lowercase` gives (Unicode lowercase mapping).
pub uninterp spec fn lowercase(s: Seq<char>) -> Seq<char>;

/// What `mime_guess::from_path(f).first_or_octet_stream()` gives, as text.
pub uninterp spec fn guessed_mime(f: Seq<char>) -> Seq<char>;

/// `Path::new(f).extension()` as a string.
#[verifier::external_body]
pub(crate) fn extension_of(f: &str) -> (r: Option<String>)
    ensures
        opt_chars(r) == path_extension(f@),
{
    std::path::Path::new(f).extension().and_then(|e| e.to_str()).map(|e| e.to_string())
}

/// `Path::new(f).file_stem()` as a string.
#[verifier::external_body]
pub(crate) fn file_stem_of(f: &str) -> (r: Option<String>)
    ensures
        opt_chars(r) == path_file_stem(f@),
{
    std::path::Path::new(f).file_stem().and_then(|e| e.to_str()).map(|e| e.to_string())
}

/// `Path::new(f).file_name()` as a string.
#[verifier::external_body]
pub(crate) fn file_name_of(f: &str) -> (r: Option<String>)
    ensures
        opt_chars(r) == path_file_name(f@),
{
    std::path::Path::new(f).file_name().and_then(|e| e.to_str()).map(|e| e.to_string())
}

/// `str::to_lowercase`.
#[verifier::external_body]
pub(crate) fn to_lowercase(s: &str) -> (r: String)
    ensures
        r@ == lowercase(s@),
{
    s.to_lowercase()
}

/// `mime_guess::from_path(f).first_or_octet_stream()` as a string.
#[verifier::external_body]
pub(crate) fn guess_mime(f: &str) -> (r: String)
    ensures
        r@ == guessed_mime(f@),
{
    mime_guess::from_path(f).first_or_octet_stream().to_string()
}

/// The file stem of an optional file name.
pub open spec fn stem_spec(filename: Option<Seq<char>>) -> Option<Seq<char>> {
    match filename {
        Some(f) => path_file_stem(f),
        None => None,
    }
}

/// The file stem of an optional file name, as a title.
pub fn stem(filename: Option<&str>) -> (r: Option<String>)
    ensures
        opt_chars(r) == stem_spec(opt_str(filename)),
{
    match filename {
        Some(f) => file_stem_of(f),
        None => None,
    }
}

/// The characters of an optional string slice.
pub open spec fn opt_str(o: Option<&str>) -> Option<Seq<char>> {
    match o {
        Some(s) => Some(s@),
        None => None,
    }
}

/// The lowercased extension of an optional file name.
pub open spec fn lower_ext(filename: Option<Seq<char>>) -> Option<Seq<char>> {
    match filename {
        Some(f) => match path_extension(f) {
            Some(e) => Some(lowercase(e)),
            None => None,
        },
        None => None,
    }
}

/// The lowercased extension of an optional file name.
pub fn lower_extension(filename: Option<&str>) -> (r: Option<String>)
    ensures
        opt_chars(r) == lower_ext(opt_str(filename)),
{
    match filename {
        Some(f) => match extension_of(f) {
            Some(e) => Some(to_lowercase(e.as_str())),
            None => None,
        },
        None => None,
    }
}

/// The decimal digit for `d < 10`.
pub open spec fn digit_char(d: nat) -> char {
    if d == 0 {
        '0'
    } else if d == 1 {
        '1'
    } else if d == 2 {
        '2'
    } else if d == 3 {
        '3'
    } else if d == 4 {
        '4'
    } else if d == 5 {
        '5'
    } else if d == 6 {
        '6'
    } else if d == 7 {
        '7'
    } else if d == 8 {
        '8'
    } else {
        '9'
    }
}

/// Decimal representation of a natural number, as `Display` writes it.
pub open spec fn decimal(n: nat) -> Seq<char>
    decreases n,
{
    if n < 10 {
        seq![digit_char(n)]
    } else {
        decimal(n / 10).push(digit_char(n % 10))
    }
}

fn digit_str(d: usize) -> (r: &'static str)
    requires
        d < 10,
    ensures
        r@ == seq![digit_char(d as nat)],
{
    proof {
        reveal_strlit("0");
        reveal_strlit("1");
        reveal_strlit("2");
        reveal_strlit("3");
        reveal_strlit("4");
        reveal_strlit("5");
        reveal_strlit("6");
        reveal_strlit("7");
        reveal_strlit("8");
        reveal_strlit("9");
    }
    if d == 0 {
        "0"
    } else if d == 1 {
        "1"
    } else if d == 2 {
        "2"
    } else if d == 3 {
        "3"
    } else if d == 4 {
        "4"
    } else if d == 5 {
        "5"
    } else if d == 6 {
        "6"
    } else if d == 7 {
        "7"
    } else if d == 8 {
        "8"
    } else {
        "9"
    }
}

/// `n.to_string()`.
pub fn decimal_string(n: usize) -> (r: String)
    ensures
        r@ == decimal(n as nat),
    decreases n,
{
    if n < 10 {
        String::from_str(digit_str(n))
    } else {
        let mut s = decimal_string(n / 10);
        s.append(digit_str(n % 10));
        s
    }
}

} // verus!
