//! Byte-level model of UTF-8 text shared by the parsers and the chunker.
//!
//! A `str` is modelled by its UTF-8 bytes (`spec_bytes`, i.e. `encode_utf8`
//! of its characters).  The helpers here search, slice and assemble strings
//! while keeping every result tied to that byte model.
use vstd::prelude::*;
use vstd::utf8::*;
use vstd::string::*;

verus! {

broadcast use {vstd::utf8::encode_utf8_valid_utf8, vstd::utf8::encode_utf8_decode_utf8};

/// The UTF-8 bytes of a character sequence.
pub open spec fn bytes_of(s: Seq<char>) -> Seq<u8> {
    encode_utf8(s)
}

/// Unicode `White_Space` characters, as used by `char::is_whitespace`.
pub open spec fn is_ws(c: char) -> bool {
    let u = c as u32;
    ||| 0x09 <= u <= 0x0d
    ||| u == 0x20
    ||| u == 0x85
    ||| u == 0xa0
    ||| u == 0x1680
    ||| 0x2000 <= u <= 0x200a
    ||| u == 0x2028
    ||| u == 0x2029
    ||| u == 0x202f
    ||| u == 0x205f
    ||| u == 0x3000
}

/// Every character is whitespace (the empty sequence included).
pub open spec fn all_ws(s: Seq<char>) -> bool {
    forall|i: int| 0 <= i < s.len() ==> #[trigger] is_ws(s[i])
}

/// Text whose characters are all whitespace: what `trim().is_empty()` tests.
pub open spec fn blank(b: Seq<u8>) -> bool {
    all_ws(decode_utf8(b))
}

/// Characters left after removing leading whitespace.
pub open spec fn trim_start_chars(s: Seq<char>) -> Seq<char>
    decreases s.len(),
{
    if s.len() > 0 && is_ws(s[0]) {
        trim_start_chars(s.drop_first())
    } else {
        s
    }
}

/// Characters left after removing trailing whitespace.
pub open spec fn trim_end_chars(s: Seq<char>) -> Seq<char>
    decreases s.len(),
{
    if s.len() > 0 && is_ws(s.last()) {
        trim_end_chars(s.drop_last())
    } else {
        s
    }
}

/// `str::trim` on the character level.
pub open spec fn trim_chars(s: Seq<char>) -> Seq<char> {
    trim_end_chars(trim_start_chars(s))
}

/// `str::trim` on the byte level.
pub open spec fn trim_bytes(b: Seq<u8>) -> Seq<u8> {
    bytes_of(trim_chars(decode_utf8(b)))
}

proof fn lemma_trim_start_empty_iff(s: Seq<char>)
    ensures
        trim_start_chars(s).len() == 0 <==> all_ws(s),
    decreases s.len(),
{
    if s.len() > 0 && is_ws(s[0]) {
        lemma_trim_start_empty_iff(s.drop_first());
        if all_ws(s.drop_first()) {
            assert forall|i: int| 0 <= i < s.len() implies #[trigger] is_ws(s[i]) by {
                if i > 0 {
                    assert(s[i] == s.drop_first()[i - 1]);
                }
            }
        }
        if all_ws(s) {
            assert forall|i: int| 0 <= i < s.drop_first().len() implies #[trigger] is_ws(
                s.drop_first()[i],
            ) by {
                assert(s.drop_first()[i] == s[i + 1]);
            }
        }
    } else if s.len() > 0 {
        assert(!is_ws(s[0]));
    }
}

proof fn lemma_trim_end_empty_iff(s: Seq<char>)
    ensures
        trim_end_chars(s).len() == 0 <==> all_ws(s),
    decreases s.len(),
{
    if s.len() > 0 && is_ws(s.last()) {
        lemma_trim_end_empty_iff(s.drop_last());
        if all_ws(s.drop_last()) {
            assert forall|i: int| 0 <= i < s.len() implies #[trigger] is_ws(s[i]) by {
                if i < s.len() - 1 {
                    assert(s[i] == s.drop_last()[i]);
                }
            }
        }
        if all_ws(s) {
            assert forall|i: int| 0 <= i < s.drop_last().len() implies #[trigger] is_ws(
                s.drop_last()[i],
            ) by {
                assert(s.drop_last()[i] == s[i]);
            }
        }
    } else if s.len() > 0 {
        assert(!is_ws(s[s.len() - 1]));
    }
}

proof fn lemma_trim_start_ws_suffix(s: Seq<char>)
    ensures
        all_ws(trim_start_chars(s)) ==> all_ws(s),
    decreases s.len(),
{
    if s.len() > 0 && is_ws(s[0]) {
        lemma_trim_start_ws_suffix(s.drop_first());
        if all_ws(s.drop_first()) {
            assert forall|i: int| 0 <= i < s.len() implies #[trigger] is_ws(s[i]) by {
                if i > 0 {
                    assert(s[i] == s.drop_first()[i - 1]);
                }
            }
        }
    }
}

proof fn lemma_trim_start_all_ws(s: Seq<char>)
    ensures
        all_ws(s) ==> all_ws(trim_start_chars(s)),
    decreases s.len(),
{
    if s.len() > 0 && is_ws(s[0]) {
        lemma_trim_start_all_ws(s.drop_first());
        if all_ws(s) {
            assert forall|i: int| 0 <= i < s.drop_first().len() implies #[trigger] is_ws(
                s.drop_first()[i],
            ) by {
                assert(s.drop_first()[i] == s[i + 1]);
            }
        }
    }
}

/// Trimming leaves nothing exactly when every character is whitespace.
pub proof fn lemma_trim_empty_iff(s: Seq<char>)
    ensures
        trim_chars(s).len() == 0 <==> all_ws(s),
{
    lemma_trim_end_empty_iff(trim_start_chars(s));
    lemma_trim_start_ws_suffix(s);
    lemma_trim_start_all_ws(s);
}

/// `str::trim`: the slice without leading and trailing Unicode whitespace.
#[verifier::external_body]
pub(crate) fn trim(s: &str) -> (r: &str)
    ensures
        r@ == trim_chars(s@),
{
    s.trim()
}

/// True when `s` holds only whitespace, as `s.trim().is_empty()`.
pub fn is_blank(s: &str) -> (r: bool)
    ensures
        r == all_ws(s@),
        r == blank(s.spec_bytes()),
{
    let t = trim(s);
    proof {
        lemma_trim_empty_iff(s@);
    }
    t.is_empty()
}

/// Nonempty text has nonempty bytes.
pub proof fn lemma_encode_nonempty(s: Seq<char>)
    requires
        s.len() > 0,
    ensures
        bytes_of(s).len() > 0,
{
    let c = s[0] as u32;
    assert(encode_scalar(c).len() > 0);
    assert(bytes_of(s) == encode_scalar(c) + encode_utf8(s.drop_first()));
}

/// UTF-8 encoding distributes over concatenation.
pub proof fn lemma_encode_concat(a: Seq<char>, b: Seq<char>)
    ensures
        encode_utf8(a + b) == encode_utf8(a) + encode_utf8(b),
    decreases a.len(),
{
    if a.len() == 0 {
        assert(a + b =~= b);
        assert(encode_utf8(a) + encode_utf8(b) =~= encode_utf8(b));
    } else {
        lemma_encode_concat(a.drop_first(), b);
        assert((a + b).drop_first() =~= a.drop_first() + b);
        assert((a + b)[0] == a[0]);
        assert(encode_utf8(a + b) =~= encode_scalar(a[0] as u32) + encode_utf8(
            a.drop_first() + b,
        ));
        assert(encode_utf8(a) + encode_utf8(b) =~= encode_scalar(a[0] as u32) + (encode_utf8(
            a.drop_first(),
        ) + encode_utf8(b)));
    }
}

/// The end of a valid prefix of valid UTF-8 is a character boundary.
pub proof fn lemma_prefix_boundary(t: Seq<u8>, n: int)
    requires
        valid_utf8(t),
        0 <= n <= t.len(),
        valid_utf8(t.subrange(0, n)),
    ensures
        is_char_boundary(t, n),
    decreases n,
{
    if n == 0 {
    } else {
        let a = t.subrange(0, n);
        let l = length_of_first_scalar(a);
        assert(a[0] == t[0]);
        assert(valid_first_scalar(a));
        assert(t.subrange(0, l) =~= a.subrange(0, l));
        assert(valid_first_scalar(t)) by {
            assert(forall|k: int| 0 <= k < l ==> a[k] == t[k]);
        }
        assert(length_of_first_scalar(t) == l);
        let pt = pop_first_scalar(t);
        let pa = pop_first_scalar(a);
        assert(pa =~= pt.subrange(0, n - l));
        lemma_prefix_boundary(pt, n - l);
    }
}

/// Boundaries of a valid text are boundaries of its suffixes, shifted.
pub proof fn lemma_boundary_shift(t: Seq<u8>, i: int, j: int)
    requires
        valid_utf8(t),
        0 <= i <= j <= t.len(),
        is_char_boundary(t, i),
        is_char_boundary(t, j),
    ensures
        valid_utf8(t.subrange(i, t.len() as int)),
        is_char_boundary(t.subrange(i, t.len() as int), j - i),
        valid_utf8(t.subrange(i, j)),
{
    let r = t.subrange(i, t.len() as int);
    valid_utf8_split(t, i);
    is_char_boundary_start_end_of_seq(r);
    if j < t.len() && j > i {
        is_char_boundary_iff_not_is_continuation_byte(t, j);
        is_char_boundary_iff_not_is_continuation_byte(r, j - i);
    }
    valid_utf8_split(r, j - i);
    assert(r.subrange(0, j - i) =~= t.subrange(i, j));
}

/// A match of valid text inside valid text starts and ends on boundaries.
pub proof fn lemma_match_boundaries(t: Seq<u8>, i: int, p: Seq<u8>)
    requires
        valid_utf8(t),
        valid_utf8(p),
        0 <= i,
        i + p.len() <= t.len(),
        is_char_boundary(t, i),
        t.subrange(i, i + p.len()) == p,
    ensures
        is_char_boundary(t, i + p.len()),
{
    let r = t.subrange(i, t.len() as int);
    valid_utf8_split(t, i);
    assert(r.subrange(0, p.len() as int) =~= p);
    lemma_prefix_boundary(r, p.len() as int);
    is_char_boundary_start_end_of_seq(t);
    if i + p.len() < t.len() && p.len() > 0 {
        is_char_boundary_iff_not_is_continuation_byte(t, i + p.len());
        is_char_boundary_iff_not_is_continuation_byte(r, p.len() as int);
    }
}

/// The first byte of nonempty valid UTF-8 is not a continuation byte.
pub proof fn lemma_valid_first_not_continuation(p: Seq<u8>)
    requires
        valid_utf8(p),
        p.len() > 0,
    ensures
        !is_continuation_byte(p[0]),
{
    is_char_boundary_iff_not_is_continuation_byte(p, 0);
}

/// A position where a nonempty valid pattern matches is a boundary.
pub proof fn lemma_match_start_boundary(t: Seq<u8>, i: int, p: Seq<u8>)
    requires
        valid_utf8(t),
        valid_utf8(p),
        p.len() > 0,
        0 <= i,
        i + p.len() <= t.len(),
        t.subrange(i, i + p.len()) == p,
    ensures
        is_char_boundary(t, i),
{
    lemma_valid_first_not_continuation(p);
    assert(t[i] == p[0]) by {
        assert(t.subrange(i, i + p.len())[0] == t[i]);
    }
    is_char_boundary_iff_not_is_continuation_byte(t, i);
}

/// `p` occurs in `t` at position `i`.
pub open spec fn matches_at(t: Seq<u8>, p: Seq<u8>, i: int) -> bool {
    0 <= i && i + p.len() <= t.len() && t.subrange(i, i + p.len()) == p
}

/// `p` occurs somewhere in `t` (`str::contains`).
pub open spec fn contains(t: Seq<u8>, p: Seq<u8>) -> bool {
    exists|i: int| #[trigger] matches_at(t, p, i)
}

/// Leftmost occurrence of `p` in `t` at or after position `k`.
pub open spec fn find_scan(t: Seq<u8>, p: Seq<u8>, k: int) -> Option<int>
    decreases t.len() + 1 - k,
{
    if k < 0 || k + p.len() > t.len() {
        None
    } else if matches_at(t, p, k) {
        Some(k)
    } else {
        find_scan(t, p, k + 1)
    }
}

/// Leftmost occurrence of `p` in `t` (`str::find`).
pub open spec fn find(t: Seq<u8>, p: Seq<u8>) -> Option<int> {
    find_scan(t, p, 0)
}

/// The scan finds the first match at or after `k`.
pub proof fn lemma_find_scan_found(t: Seq<u8>, p: Seq<u8>, k: int, i: int)
    requires
        0 <= k <= i,
        matches_at(t, p, i),
        forall|j: int| k <= j < i ==> !#[trigger] matches_at(t, p, j),
    ensures
        find_scan(t, p, k) == Some(i),
    decreases i - k,
{
    if k < i {
        assert(!matches_at(t, p, k));
        lemma_find_scan_found(t, p, k + 1, i);
    }
}

/// The scan finds nothing when nothing matches at or after `k`.
pub proof fn lemma_find_scan_none(t: Seq<u8>, p: Seq<u8>, k: int)
    requires
        0 <= k,
        forall|j: int| k <= j ==> !#[trigger] matches_at(t, p, j),
    ensures
        find_scan(t, p, k) is None,
    decreases t.len() + 1 - k,
{
    if k + p.len() <= t.len() {
        assert(!matches_at(t, p, k));
        lemma_find_scan_none(t, p, k + 1);
    }
}

/// A scan result is a match with none before it.
pub proof fn lemma_find_scan_props(t: Seq<u8>, p: Seq<u8>, k: int)
    requires
        0 <= k,
    ensures
        find_scan(t, p, k) matches Some(i) ==> k <= i && matches_at(t, p, i) && forall|j: int|
            k <= j < i ==> !#[trigger] matches_at(t, p, j),
        find_scan(t, p, k) is None ==> forall|j: int| k <= j ==> !#[trigger] matches_at(t, p, j),
    decreases t.len() + 1 - k,
{
    if k + p.len() <= t.len() && !matches_at(t, p, k) {
        lemma_find_scan_props(t, p, k + 1);
    }
}

/// `contains` agrees with the scan.
pub proof fn lemma_contains_find(t: Seq<u8>, p: Seq<u8>)
    ensures
        contains(t, p) <==> find(t, p) is Some,
{
    lemma_find_scan_props(t, p, 0);
    if contains(t, p) {
        let i = choose|i: int| matches_at(t, p, i);
        assert(matches_at(t, p, i));
    }
}

/// Exec byte comparison: `t[i..i+p.len()] == p`.
pub fn match_at(t: &[u8], p: &[u8], i: usize) -> (r: bool)
    requires
        i + p@.len() <= t@.len(),
    ensures
        r == matches_at(t@, p@, i as int),
{
    let tl = t.len();
    let mut k: usize = 0;
    while k < p.len()
        invariant
            i + p@.len() <= t@.len(),
            tl == t@.len(),
            k <= p@.len(),
            forall|m: int| 0 <= m < k ==> t@[i + m] == p@[m],
        decreases p@.len() - k,
    {
        if t[i + k] != p[k] {
            proof {
                assert(t@.subrange(i as int, i + p@.len())[k as int] != p@[k as int]);
            }
            return false;
        }
        k = k + 1;
    }
    assert(t@.subrange(i as int, i + p@.len()) =~= p@);
    true
}

/// Leftmost occurrence of `p` in `t` at or after `from`.
pub fn find_from(t: &[u8], p: &[u8], from: usize) -> (r: Option<usize>)
    ensures
        r is None <==> find_scan(t@, p@, from as int) is None,
        r matches Some(i) ==> find_scan(t@, p@, from as int) == Some(i as int),
        r matches Some(i) ==> from <= i && i + p@.len() <= t@.len() && matches_at(t@, p@, i as int),
{
    if p.len() > t.len() || from > t.len() - p.len() {
        proof {
            lemma_find_scan_none(t@, p@, from as int);
        }
        return None;
    }
    let last = t.len() - p.len();
    let mut i = from;
    while i <= last
        invariant
            from <= i,
            last + p@.len() == t@.len(),
            forall|k: int| from <= k < i ==> !#[trigger] matches_at(t@, p@, k),
        decreases last + 1 - i,
    {
        if match_at(t, p, i) {
            proof {
                lemma_find_scan_found(t@, p@, from as int, i as int);
            }
            return Some(i);
        }
        if i == last {
            proof {
                lemma_find_scan_none(t@, p@, from as int);
            }
            return None;
        }
        i = i + 1;
    }
    proof {
        lemma_find_scan_none(t@, p@, from as int);
    }
    None
}

/// Whether `p` occurs in `t` (`str::contains`).
pub fn contains_bytes(t: &[u8], p: &[u8]) -> (r: bool)
    ensures
        r == contains(t@, p@),
        r == find(t@, p@) is Some,
{
    proof {
        lemma_contains_find(t@, p@);
    }
    find_from(t, p, 0).is_some()
}

/// Slice `s[i..j]` of a string at character boundaries.
pub fn substr(s: &str, i: usize, j: usize) -> (r: &str)
    requires
        i <= j <= s.spec_bytes().len(),
        is_char_boundary(s.spec_bytes(), i as int),
        is_char_boundary(s.spec_bytes(), j as int),
    ensures
        r.spec_bytes() == s.spec_bytes().subrange(i as int, j as int),
        r@ == decode_utf8(s.spec_bytes().subrange(i as int, j as int)),
{
    let ghost t = s.spec_bytes();
    proof {
        lemma_boundary_shift(t, i as int, j as int);
    }
    let (_, rest) = s.split_at(i);
    let (mid, _) = rest.split_at(j - i);
    proof {
        assert(rest.spec_bytes().subrange(0, (j - i) as int) =~= t.subrange(i as int, j as int));
        decode_utf8_encode_utf8(mid.spec_bytes());
    }
    mid
}

/// Owned copy of a string slice.
pub fn owned(s: &str) -> (r: String)
    ensures
        r@ == s@,
        bytes_of(r@) == s.spec_bytes(),
{
    s.to_owned()
}

/// Appends `t` to `s`, tracking the bytes.
pub fn push_str(s: &mut String, t: &str)
    ensures
        final(s)@ == old(s)@ + t@,
        bytes_of(final(s)@) == bytes_of(old(s)@) + t.spec_bytes(),
{
    s.append(t);
    proof {
        lemma_encode_concat(old(s)@, t@);
    }
}

/// ASCII literals encode byte for byte.
pub proof fn lemma_ascii_bytes(s: Seq<char>)
    requires
        is_ascii_chars(s),
    ensures
        bytes_of(s) == Seq::new(s.len(), |i: int| s[i] as u8),
{
    is_ascii_chars_encode_utf8(s);
    assert(bytes_of(s) =~= Seq::new(s.len(), |i: int| s[i] as u8));
}

/// Text of the error `std::str::from_utf8` reports for invalid bytes.
pub uninterp spec fn utf8_error_text(b: Seq<u8>) -> Seq<char>;

/// `std::str::from_utf8`: the bytes as text when they are valid UTF-8,
/// else the error's message.
#[verifier::external_body]
pub(crate) fn utf8_str(b: &[u8]) -> (r: Result<&str, String>)
    ensures
        r is Ok <==> valid_utf8(b@),
        r matches Ok(s) ==> s.spec_bytes() == b@ && s@ == decode_utf8(b@),
        r matches Err(m) ==> m@ == utf8_error_text(b@),
{
    match std::str::from_utf8(b) {
        Ok(s) => Ok(s),
        Err(e) => Err(e.to_string()),
    }
}

/// Byte-wise equality of two slices.
pub fn bytes_eq(a: &[u8], b: &[u8]) -> (r: bool)
    ensures
        r == (a@ == b@),
{
    if a.len() != b.len() {
        return false;
    }
    let mut i: usize = 0;
    while i < a.len()
        invariant
            a@.len() == b@.len(),
            i <= a@.len(),
            forall|k: int| 0 <= k < i ==> a@[k] == b@[k],
        decreases a@.len() - i,
    {
        if a[i] != b[i] {
            return false;
        }
        i = i + 1;
    }
    assert(a@ =~= b@);
    true
}

/// Byte-wise equality of two strings.
pub fn str_eq(a: &str, b: &str) -> (r: bool)
    ensures
        r == (a@ == b@),
        r == (a.spec_bytes() == b.spec_bytes()),
{
    let r = bytes_eq(a.as_bytes(), b.as_bytes());
    proof {
        if a.spec_bytes() == b.spec_bytes() {
            assert(decode_utf8(a.spec_bytes()) == decode_utf8(b.spec_bytes()));
        }
    }
    r
}

/// Number of line-feed bytes.
pub open spec fn nl_count(b: Seq<u8>) -> int
    decreases b.len(),
{
    if b.len() == 0 {
        0
    } else {
        nl_count(b.drop_last()) + if b.last() == 10u8 {
            1int
        } else {
            0int
        }
    }
}

/// Line feeds never outnumber bytes.
pub proof fn lemma_nl_count_le(b: Seq<u8>)
    ensures
        0 <= nl_count(b) <= b.len(),
    decreases b.len(),
{
    if b.len() > 0 {
        lemma_nl_count_le(b.drop_last());
    }
}

/// Number of line feeds in `s`.
pub fn count_newlines(s: &str) -> (r: usize)
    ensures
        r == nl_count(s.spec_bytes()),
{
    let b = s.as_bytes();
    let mut count: usize = 0;
    let mut i: usize = 0;
    while i < b.len()
        invariant
            i <= b@.len(),
            count == nl_count(b@.take(i as int)),
            count <= i,
        decreases b@.len() - i,
    {
        proof {
            assert(b@.take(i + 1).drop_last() =~= b@.take(i as int));
        }
        if b[i] == 10u8 {
            count = count + 1;
        }
        i = i + 1;
    }
    proof {
        assert(b@.take(b@.len() as int) =~= b@);
    }
    count
}

proof fn lemma_trim_start_sub(s: Seq<char>) -> (a: int)
    ensures
        0 <= a <= s.len(),
        trim_start_chars(s) == s.subrange(a, s.len() as int),
    decreases s.len(),
{
    if s.len() > 0 && is_ws(s[0]) {
        let a0 = lemma_trim_start_sub(s.drop_first());
        assert(s.drop_first().subrange(a0, s.drop_first().len() as int) =~= s.subrange(
            a0 + 1,
            s.len() as int,
        ));
        a0 + 1
    } else {
        assert(s.subrange(0, s.len() as int) =~= s);
        0
    }
}

proof fn lemma_trim_end_sub(s: Seq<char>) -> (b: int)
    ensures
        0 <= b <= s.len(),
        trim_end_chars(s) == s.subrange(0, b),
    decreases s.len(),
{
    if s.len() > 0 && is_ws(s.last()) {
        let b0 = lemma_trim_end_sub(s.drop_last());
        assert(s.drop_last().subrange(0, b0) =~= s.subrange(0, b0));
        b0
    } else {
        assert(s.subrange(0, s.len() as int) =~= s);
        s.len() as int
    }
}

/// Trimming keeps a contiguous run of the characters.
pub proof fn lemma_trim_sub(s: Seq<char>) -> (ab: (int, int))
    ensures
        0 <= ab.0 <= ab.1 <= s.len(),
        trim_chars(s) == s.subrange(ab.0, ab.1),
{
    let a = lemma_trim_start_sub(s);
    let t = trim_start_chars(s);
    let b = lemma_trim_end_sub(t);
    assert(t.subrange(0, b) =~= s.subrange(a, a + b));
    (a, a + b)
}

/// The bytes of a run of characters are no more than the bytes of all.
pub proof fn lemma_encode_sub_len(s: Seq<char>, a: int, b: int)
    requires
        0 <= a <= b <= s.len(),
    ensures
        bytes_of(s.subrange(a, b)).len() <= bytes_of(s).len(),
{
    lemma_encode_concat(s.subrange(0, a), s.subrange(a, b));
    lemma_encode_concat(s.subrange(0, a) + s.subrange(a, b), s.subrange(b, s.len() as int));
    assert(s.subrange(0, a) + s.subrange(a, b) + s.subrange(b, s.len() as int) =~= s);
}

/// Trimmed text has no more bytes than the untrimmed text.
pub proof fn lemma_trim_bytes_len(b: Seq<u8>)
    requires
        valid_utf8(b),
    ensures
        trim_bytes(b).len() <= b.len(),
{
    let s = decode_utf8(b);
    let ab = lemma_trim_sub(s);
    lemma_encode_sub_len(s, ab.0, ab.1);
    decode_utf8_encode_utf8(b);
}

/// The encoding of a text ends in a line feed exactly when its last
/// character is a line feed.
pub proof fn lemma_last_byte_nl(s: Seq<char>)
    ensures
        s.len() == 0 ==> bytes_of(s).len() == 0,
        s.len() > 0 ==> bytes_of(s).len() > 0 && (bytes_of(s).last() == 10u8 <==> s.last()
            == '\n'),
{
    if s.len() > 0 {
        let c = s.last();
        lemma_encode_concat(s.drop_last(), seq![c]);
        assert(s.drop_last() + seq![c] =~= s);
        assert(seq![c].drop_first() =~= Seq::<char>::empty());
        assert(seq![c][0] == c);
        assert(encode_utf8(Seq::<char>::empty()) =~= Seq::<u8>::empty());
        assert(encode_utf8(seq![c]) == encode_scalar(seq![c][0] as u32) + encode_utf8(
            seq![c].drop_first(),
        ));
        assert(encode_utf8(seq![c]) =~= encode_scalar(c as u32));
        let u = c as u32;
        assert(has_width_1_encoding(u) ==> ((leading_byte_width_1(u) == 10u8) <==> (u == 10u32)))
            by (bit_vector);
        assert(last_continuation_byte(u) != 10u8) by (bit_vector);
        assert(('\n' as u32) == 10u32);
        if u == 10u32 {
            assert(c == '\n') by {
                vstd::utf8::char_u32_cast(c, u);
                vstd::utf8::char_u32_cast('\n', 10u32);
            }
        }
    }
}

} // verus!
