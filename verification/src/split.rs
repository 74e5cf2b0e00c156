//! Splitting text on a separator and joining it back.
use vstd::prelude::*;
use vstd::utf8::*;
use vstd::string::*;
use crate::text::{bytes_of, find_scan, lemma_find_scan_props, lemma_match_boundaries, lemma_match_start_boundary, lemma_boundary_shift, substr, push_str, find_from};

verus! {

broadcast use {vstd::utf8::encode_utf8_valid_utf8, vstd::utf8::encode_utf8_decode_utf8};

/// Pieces of `t[pos..]` between non-overlapping leftmost occurrences of a
/// nonempty separator `p` (`str::split`).
pub open spec fn split_from(t: Seq<u8>, p: Seq<u8>, pos: int) -> Seq<Seq<u8>>
    decreases t.len() + 1 - pos,
{
    if pos < 0 || pos > t.len() || p.len() == 0 {
        seq![]
    } else {
        match find_scan(t, p, pos) {
            Some(i) => if pos <= i && i + p.len() <= t.len() {
                seq![t.subrange(pos, i)] + split_from(t, p, i + p.len())
            } else {
                seq![]
            },
            None => seq![t.subrange(pos, t.len() as int)],
        }
    }
}

/// The first character boundary of `t` at or after `k` (a byte that does
/// not continue a character, or the end).
pub open spec fn next_boundary(t: Seq<u8>, k: int) -> int
    decreases t.len() - k,
{
    if k < 0 || k >= t.len() {
        t.len() as int
    } else if !is_continuation_byte(t[k]) {
        k
    } else {
        next_boundary(t, k + 1)
    }
}

/// The characters of `t[i..]`, each as its own piece of bytes.
pub open spec fn char_pieces(t: Seq<u8>, i: int) -> Seq<Seq<u8>>
    decreases t.len() - i,
{
    if i < 0 || i >= t.len() {
        seq![]
    } else {
        let j = next_boundary(t, i + 1);
        proof {
            lemma_next_boundary(t, i + 1);
        }
        seq![t.subrange(i, j)] + char_pieces(t, j)
    }
}

/// `t.split(p)`: the pieces between leftmost non-overlapping occurrences of
/// `p`; an empty separator matches at every character boundary, so the
/// pieces are an empty one, each character, and another empty one.
pub open spec fn split(t: Seq<u8>, p: Seq<u8>) -> Seq<Seq<u8>> {
    if p.len() == 0 {
        seq![seq![]] + char_pieces(t, 0) + seq![seq![]]
    } else {
        split_from(t, p, 0)
    }
}

/// The next boundary lies between `k` and the end.
pub proof fn lemma_next_boundary(t: Seq<u8>, k: int)
    requires
        0 <= k,
    ensures
        k <= next_boundary(t, k) <= t.len() || (k > t.len() && next_boundary(t, k) == t.len()),
        next_boundary(t, k) < t.len() ==> !is_continuation_byte(t[next_boundary(t, k)]),
        forall|m: int| k <= m < next_boundary(t, k) ==> is_continuation_byte(#[trigger] t[m]),
    decreases t.len() - k,
{
    if k < t.len() && is_continuation_byte(t[k]) {
        lemma_next_boundary(t, k + 1);
    }
}

/// Pieces joined with `sep` between consecutive ones (`[T]::join`).
pub open spec fn join(parts: Seq<Seq<u8>>, sep: Seq<u8>) -> Seq<u8>
    decreases parts.len(),
{
    if parts.len() == 0 {
        seq![]
    } else if parts.len() == 1 {
        parts[0]
    } else {
        join(parts.drop_last(), sep) + sep + parts.last()
    }
}

/// Sum of the lengths of the pieces.
pub open spec fn sum_lens(parts: Seq<Seq<u8>>) -> int
    decreases parts.len(),
{
    if parts.len() == 0 {
        0
    } else {
        sum_lens(parts.drop_last()) + parts.last().len()
    }
}

/// The bytes of each string.
pub open spec fn strings_bytes(v: Seq<String>) -> Seq<Seq<u8>> {
    v.map_values(|s: String| bytes_of(s@))
}

/// The bytes of each string slice.
pub open spec fn strs_bytes(v: Seq<&str>) -> Seq<Seq<u8>> {
    v.map_values(|s: &str| s.spec_bytes())
}

/// Joining a piece in front.
pub proof fn lemma_join_cons(a: Seq<u8>, rest: Seq<Seq<u8>>, sep: Seq<u8>)
    requires
        rest.len() > 0,
    ensures
        join(seq![a] + rest, sep) == a + sep + join(rest, sep),
    decreases rest.len(),
{
    let s = seq![a] + rest;
    if rest.len() == 1 {
        assert(s.drop_last() =~= seq![a]);
        assert(s.last() == rest[0]);
        assert(join(seq![a], sep) == a);
        assert(join(rest, sep) == rest[0]);
        assert(join(s, sep) == join(s.drop_last(), sep) + sep + s.last());
    } else {
        lemma_join_cons(a, rest.drop_last(), sep);
        assert(s.drop_last() =~= seq![a] + rest.drop_last());
        assert(s.last() == rest.last());
        assert(join(s, sep) == join(s.drop_last(), sep) + sep + s.last());
        assert(join(rest, sep) == join(rest.drop_last(), sep) + sep + rest.last());
        assert(join(s, sep) =~= a + sep + join(rest, sep));
    }
}

/// Length of a join.
pub proof fn lemma_join_len(parts: Seq<Seq<u8>>, sep: Seq<u8>)
    requires
        parts.len() > 0,
    ensures
        join(parts, sep).len() == sum_lens(parts) + (parts.len() - 1) * sep.len(),
    decreases parts.len(),
{
    if parts.len() == 1 {
        assert(parts.drop_last().len() == 0);
        assert(sum_lens(parts.drop_last()) == 0);
        assert(sum_lens(parts) == parts[0].len());
    } else {
        lemma_join_len(parts.drop_last(), sep);
        assert((parts.len() - 1) * sep.len() == (parts.len() - 2) * sep.len() + sep.len())
            by (nonlinear_arith);
    }
}

/// `sum_lens` of a concatenation.
pub proof fn lemma_sum_lens_concat(a: Seq<Seq<u8>>, b: Seq<Seq<u8>>)
    ensures
        sum_lens(a + b) == sum_lens(a) + sum_lens(b),
    decreases b.len(),
{
    if b.len() == 0 {
        assert(a + b =~= a);
    } else {
        lemma_sum_lens_concat(a, b.drop_last());
        assert((a + b).drop_last() =~= a + b.drop_last());
    }
}

/// `sum_lens` is monotone on contiguous windows.
pub proof fn lemma_sum_lens_window(s: Seq<Seq<u8>>, i: int, j: int)
    requires
        0 <= i <= j <= s.len(),
    ensures
        sum_lens(s.subrange(i, j)) <= sum_lens(s),
        0 <= sum_lens(s.subrange(i, j)),
{
    lemma_sum_lens_concat(s.subrange(0, i), s.subrange(i, j));
    lemma_sum_lens_concat(s.subrange(0, i) + s.subrange(i, j), s.subrange(j, s.len() as int));
    assert(s.subrange(0, i) + s.subrange(i, j) + s.subrange(j, s.len() as int) =~= s);
    lemma_sum_lens_nonneg(s.subrange(0, i));
    lemma_sum_lens_nonneg(s.subrange(i, j));
    lemma_sum_lens_nonneg(s.subrange(j, s.len() as int));
}

/// `sum_lens` is never negative.
pub proof fn lemma_sum_lens_nonneg(s: Seq<Seq<u8>>)
    ensures
        sum_lens(s) >= 0,
    decreases s.len(),
{
    if s.len() > 0 {
        lemma_sum_lens_nonneg(s.drop_last());
    }
}

/// A split always has at least one piece.
pub proof fn lemma_split_from_nonempty(t: Seq<u8>, p: Seq<u8>, pos: int)
    requires
        0 <= pos <= t.len(),
        p.len() > 0,
    ensures
        split_from(t, p, pos).len() > 0,
{
    lemma_find_scan_props(t, p, pos);
}

/// Joining the pieces of a split with the separator gives the text back.
pub proof fn lemma_split_join_from(t: Seq<u8>, p: Seq<u8>, pos: int)
    requires
        0 <= pos <= t.len(),
        p.len() > 0,
    ensures
        join(split_from(t, p, pos), p) == t.subrange(pos, t.len() as int),
    decreases t.len() + 1 - pos,
{
    lemma_find_scan_props(t, p, pos);
    match find_scan(t, p, pos) {
        Some(i) => {
            let rest = split_from(t, p, i + p.len());
            lemma_split_from_nonempty(t, p, i + p.len());
            lemma_split_join_from(t, p, i + p.len());
            lemma_join_cons(t.subrange(pos, i), rest, p);
            assert(t.subrange(i, i + p.len()) == p);
            assert(t.subrange(pos, i) + p + t.subrange(i + p.len(), t.len() as int)
                =~= t.subrange(pos, t.len() as int));
        },
        None => {
        },
    }
}

/// The character pieces of `t[i..]`, with an empty piece after them, join
/// back (without separator) to `t[i..]`.
proof fn lemma_char_pieces_join(t: Seq<u8>, i: int)
    requires
        0 <= i <= t.len(),
    ensures
        join(char_pieces(t, i) + seq![seq![]], seq![]) == t.subrange(i, t.len() as int),
    decreases t.len() - i,
{
    if i >= t.len() {
        assert(char_pieces(t, i) + seq![seq![]] =~= seq![Seq::<u8>::empty()]);
    } else {
        let j = next_boundary(t, i + 1);
        lemma_next_boundary(t, i + 1);
        lemma_char_pieces_join(t, j);
        let rest = char_pieces(t, j) + seq![seq![]];
        assert(char_pieces(t, i) + seq![seq![]] =~= seq![t.subrange(i, j)] + rest);
        lemma_join_cons(t.subrange(i, j), rest, seq![]);
        assert(t.subrange(i, j) + seq![] + t.subrange(j, t.len() as int) =~= t.subrange(
            i,
            t.len() as int,
        ));
    }
}

/// Splitting then joining with the same separator is the identity.
pub proof fn lemma_split_join(t: Seq<u8>, p: Seq<u8>)
    ensures
        join(split(t, p), p) == t,
{
    if p.len() == 0 {
        assert(p =~= Seq::<u8>::empty());
        lemma_char_pieces_join(t, 0);
        let rest = char_pieces(t, 0) + seq![seq![]];
        assert(split(t, p) =~= seq![Seq::<u8>::empty()] + rest);
        lemma_join_cons(seq![], rest, seq![]);
        assert(Seq::<u8>::empty() + seq![] + t.subrange(0, t.len() as int) =~= t);
    } else {
        lemma_split_join_from(t, p, 0);
        assert(t.subrange(0, t.len() as int) =~= t);
    }
}

/// `s.split(sep)`: the pieces as slices of `s`.
pub fn split_str<'a>(s: &'a str, sep: &str) -> (r: Vec<&'a str>)
    ensures
        strs_bytes(r@) == split(s.spec_bytes(), sep.spec_bytes()),
{
    if sep.as_bytes().len() == 0 {
        proof {
            assert(sep.spec_bytes() =~= Seq::<u8>::empty());
        }
        split_chars(s)
    } else {
        split_on(s, sep)
    }
}

/// `s.split("")`: an empty piece, then each character, then an empty piece.
fn split_chars<'a>(s: &'a str) -> (r: Vec<&'a str>)
    ensures
        strs_bytes(r@) == split(s.spec_bytes(), Seq::<u8>::empty()),
{
    let tb = s.as_bytes();
    let ghost t = s.spec_bytes();
    let n = tb.len();
    proof {
        is_char_boundary_start_end_of_seq(t);
    }
    let mut out: Vec<&'a str> = Vec::new();
    let first = substr(s, 0, 0);
    out.push(first);
    proof {
        assert(strs_bytes(out@) =~= seq![Seq::<u8>::empty()]);
    }
    let mut i: usize = 0;
    while i < n
        invariant
            tb@ == t,
            t == s.spec_bytes(),
            n == t.len(),
            valid_utf8(t),
            i <= n,
            is_char_boundary(t, i as int),
            is_char_boundary(t, n as int),
            seq![Seq::<u8>::empty()] + char_pieces(t, 0) == strs_bytes(out@) + char_pieces(
                t,
                i as int,
            ),
        decreases n - i,
    {
        let mut j: usize = i + 1;
        while j < n && 0x80u8 <= tb[j] && tb[j] <= 0xbfu8
            invariant
                i < j <= n,
                tb@ == t,
                n == t.len(),
                next_boundary(t, i + 1) == next_boundary(t, j as int),
            decreases n - j,
        {
            j = j + 1;
        }
        proof {
            if j < n {
                is_char_boundary_iff_not_is_continuation_byte(t, j as int);
            }
            assert(next_boundary(t, j as int) == j);
            assert(char_pieces(t, i as int) == seq![t.subrange(i as int, j as int)] + char_pieces(
                t,
                j as int,
            ));
        }
        let piece = substr(s, i, j);
        let ghost old_out = out@;
        out.push(piece);
        proof {
            assert(strs_bytes(out@) =~= strs_bytes(old_out) + seq![t.subrange(i as int, j as int)]);
            assert(strs_bytes(out@) + char_pieces(t, j as int) =~= strs_bytes(old_out)
                + char_pieces(t, i as int));
        }
        i = j;
    }
    let last = substr(s, n, n);
    let ghost old_out = out@;
    out.push(last);
    proof {
        assert(char_pieces(t, n as int) =~= Seq::<Seq<u8>>::empty());
        assert(strs_bytes(out@) =~= strs_bytes(old_out) + seq![Seq::<u8>::empty()]);
        assert(strs_bytes(out@) =~= seq![Seq::<u8>::empty()] + char_pieces(t, 0) + seq![
            Seq::<u8>::empty(),
        ]);
    }
    out
}

/// `s.split(sep)` for a nonempty separator.
fn split_on<'a>(s: &'a str, sep: &str) -> (r: Vec<&'a str>)
    requires
        sep.spec_bytes().len() > 0,
    ensures
        strs_bytes(r@) == split(s.spec_bytes(), sep.spec_bytes()),
{
    let tb = s.as_bytes();
    let pb = sep.as_bytes();
    let ghost t = s.spec_bytes();
    let ghost p = sep.spec_bytes();
    let n = tb.len();
    let mut out: Vec<&'a str> = Vec::new();
    let mut pos: usize = 0;
    proof {
        is_char_boundary_start_end_of_seq(t);
    }
    loop
        invariant
            tb@ == t,
            t == s.spec_bytes(),
            pb@ == p,
            p == sep.spec_bytes(),
            p.len() > 0,
            n == t.len(),
            valid_utf8(t),
            valid_utf8(p),
            pos <= n,
            is_char_boundary(t, pos as int),
            is_char_boundary(t, n as int),
            split(t, p) == strs_bytes(out@) + split_from(t, p, pos as int),
        decreases n + 1 - pos,
    {
        match find_from(tb, pb, pos) {
            Some(i) => {
                proof {
                    lemma_match_start_boundary(t, i as int, p);
                    lemma_match_boundaries(t, i as int, p);
                }
                let piece = substr(s, pos, i);
                let ghost old_out = out@;
                out.push(piece);
                proof {
                    assert(strs_bytes(out@) =~= strs_bytes(old_out) + seq![t.subrange(
                        pos as int,
                        i as int,
                    )]);
                    assert(split_from(t, p, pos as int) == seq![t.subrange(pos as int, i as int)]
                        + split_from(t, p, i + p.len()));
                    assert(strs_bytes(out@) + split_from(t, p, i + p.len()) =~= strs_bytes(
                        old_out,
                    ) + split_from(t, p, pos as int));
                }
                pos = i + pb.len();
            },
            None => {
                assert(split_from(t, p, pos as int) == seq![t.subrange(pos as int, n as int)]);
                let piece = substr(s, pos, n);
                let ghost old_out = out@;
                out.push(piece);
                proof {
                    assert(strs_bytes(out@) =~= strs_bytes(old_out) + seq![t.subrange(
                        pos as int,
                        n as int,
                    )]);
                    assert(split(t, p) =~= strs_bytes(out@));
                }
                return out;
            },
        }
    }
}

/// `parts.join(sep)`.
pub fn join_strings(parts: &Vec<String>, sep: &str) -> (r: String)
    ensures
        bytes_of(r@) == join(strings_bytes(parts@), sep.spec_bytes()),
{
    let mut acc = String::new();
    let mut k: usize = 0;
    proof {
        assert(bytes_of(acc@) =~= seq![]);
    }
    while k < parts.len()
        invariant
            k <= parts@.len(),
            bytes_of(acc@) == join(strings_bytes(parts@).take(k as int), sep.spec_bytes()),
        decreases parts@.len() - k,
    {
        let ghost pre = strings_bytes(parts@).take(k as int);
        let ghost post = strings_bytes(parts@).take(k + 1);
        proof {
            assert(post.drop_last() =~= pre);
            assert(post.last() == bytes_of(parts@[k as int]@));
        }
        if k > 0 {
            push_str(&mut acc, sep);
        } else {
            assert(pre.len() == 0);
        }
        push_str(&mut acc, parts[k].as_str());
        k = k + 1;
        proof {
            if k == 1 {
                assert(bytes_of(acc@) =~= post[0]);
            }
        }
    }
    proof {
        assert(strings_bytes(parts@).take(k as int) =~= strings_bytes(parts@));
    }
    acc
}

/// The strings of `parts` joined with `sep` between each two.
pub open spec fn join_chars(parts: Seq<Seq<char>>, sep: Seq<char>) -> Seq<char>
    decreases parts.len(),
{
    if parts.len() == 0 {
        seq![]
    } else if parts.len() == 1 {
        parts[0]
    } else {
        join_chars(parts.drop_last(), sep) + sep + parts.last()
    }
}

/// Joining a list with a first element in front.
pub proof fn lemma_join_chars_front(h: Seq<char>, d: Seq<Seq<char>>, sep: Seq<char>)
    ensures
        join_chars(seq![h] + d, sep) == if d.len() == 0 {
            h
        } else {
            h + sep + join_chars(d, sep)
        },
    decreases d.len(),
{
    if d.len() == 0 {
        assert(seq![h] + d =~= seq![h]);
    } else if d.len() == 1 {
        assert((seq![h] + d).drop_last() =~= seq![h]);
        assert(join_chars(seq![h], sep) == h);
        assert((seq![h] + d).last() == d[0]);
        assert(join_chars(d, sep) == d[0]);
    } else {
        lemma_join_chars_front(h, d.drop_last(), sep);
        assert((seq![h] + d).drop_last() =~= seq![h] + d.drop_last());
        assert((seq![h] + d).last() == d.last());
        assert((h + sep + join_chars(d.drop_last(), sep)) + sep + d.last() =~= h + sep + (
        join_chars(d.drop_last(), sep) + sep + d.last()));
    }
}

/// The characters of each string.
pub open spec fn strings_chars(v: Seq<String>) -> Seq<Seq<char>> {
    v.map_values(|s: String| s@)
}

/// `parts.join(sep)`, by characters.
pub fn join_with(parts: &Vec<String>, sep: &str) -> (r: String)
    ensures
        r@ == join_chars(strings_chars(parts@), sep@),
{
    let mut acc = String::new();
    let mut k: usize = 0;
    while k < parts.len()
        invariant
            k <= parts@.len(),
            acc@ == join_chars(strings_chars(parts@).take(k as int), sep@),
        decreases parts@.len() - k,
    {
        let ghost pre = strings_chars(parts@).take(k as int);
        let ghost post = strings_chars(parts@).take(k + 1);
        proof {
            assert(post.drop_last() =~= pre);
            assert(post.last() == parts@[k as int]@);
        }
        if k > 0 {
            acc.append(sep);
        } else {
            assert(acc@ =~= Seq::<char>::empty());
        }
        acc.append(parts[k].as_str());
        k = k + 1;
        proof {
            if k == 1 {
                assert(acc@ =~= post[0]);
            }
        }
    }
    proof {
        assert(strings_chars(parts@).take(k as int) =~= strings_chars(parts@));
    }
    acc
}

/// Every piece of a split of valid UTF-8 text on a valid UTF-8 separator is
/// valid UTF-8.
pub proof fn lemma_split_pieces_valid(t: Seq<u8>, p: Seq<u8>)
    requires
        valid_utf8(t),
        valid_utf8(p),
    ensures
        forall|i: int| 0 <= i < split(t, p).len() ==> valid_utf8(#[trigger] split(t, p)[i]),
{
    is_char_boundary_start_end_of_seq(t);
    if p.len() == 0 {
        lemma_char_pieces_valid(t, 0);
        let s = split(t, p);
        let c = char_pieces(t, 0);
        assert(valid_utf8(Seq::<u8>::empty()));
        assert forall|i: int| 0 <= i < s.len() implies valid_utf8(#[trigger] s[i]) by {
            if i == 0 || i == s.len() - 1 {
                assert(s[i] =~= Seq::<u8>::empty());
            } else {
                assert(s[i] == c[i - 1]);
            }
        }
    } else {
        lemma_split_from_valid(t, p, 0);
    }
}

/// The pieces of `t[pos..]` from a character boundary are valid UTF-8.
proof fn lemma_split_from_valid(t: Seq<u8>, p: Seq<u8>, pos: int)
    requires
        valid_utf8(t),
        valid_utf8(p),
        p.len() > 0,
        0 <= pos <= t.len(),
        is_char_boundary(t, pos),
    ensures
        forall|i: int| 0 <= i < split_from(t, p, pos).len() ==> valid_utf8(#[trigger] split_from(t, p, pos)[i]),
    decreases t.len() + 1 - pos,
{
    lemma_find_scan_props(t, p, pos);
    is_char_boundary_start_end_of_seq(t);
    let s = split_from(t, p, pos);
    match find_scan(t, p, pos) {
        Some(i) => {
            lemma_match_start_boundary(t, i, p);
            lemma_match_boundaries(t, i, p);
            lemma_boundary_shift(t, pos, i);
            lemma_split_from_valid(t, p, i + p.len());
            let rest = split_from(t, p, i + p.len());
            assert forall|k: int| 0 <= k < s.len() implies valid_utf8(#[trigger] s[k]) by {
                if k > 0 {
                    assert(s[k] == rest[k - 1]);
                }
            }
        },
        None => {
            lemma_boundary_shift(t, pos, t.len() as int);
        },
    }
}

/// The character pieces of `t[i..]` from a boundary are valid UTF-8.
proof fn lemma_char_pieces_valid(t: Seq<u8>, i: int)
    requires
        valid_utf8(t),
        0 <= i <= t.len(),
        is_char_boundary(t, i),
    ensures
        forall|k: int| 0 <= k < char_pieces(t, i).len() ==> valid_utf8(#[trigger] char_pieces(t, i)[k]),
    decreases t.len() - i,
{
    if i < t.len() {
        let j = next_boundary(t, i + 1);
        lemma_next_boundary(t, i + 1);
        is_char_boundary_start_end_of_seq(t);
        if j < t.len() {
            is_char_boundary_iff_not_is_continuation_byte(t, j);
        }
        lemma_boundary_shift(t, i, j);
        lemma_char_pieces_valid(t, j);
        let s = char_pieces(t, i);
        let rest = char_pieces(t, j);
        assert forall|k: int| 0 <= k < s.len() implies valid_utf8(#[trigger] s[k]) by {
            if k > 0 {
                assert(s[k] == rest[k - 1]);
            }
        }
    }
}

} // verus!
