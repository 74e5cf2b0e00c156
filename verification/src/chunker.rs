//! Recursive character splitter that cuts document text into chunks of a
//! target byte size, keeping some overlap between neighbouring chunks.
use vstd::prelude::*;
use vstd::utf8::*;
use vstd::string::*;
use crate::document::{ParsedDocument, Section, opt_chars};
use crate::text::{bytes_of, blank, is_blank, owned, substr, push_str, contains, contains_bytes, str_eq, lemma_ascii_bytes};
use crate::split::{
    split, join, sum_lens, strings_bytes, strs_bytes, split_str, join_strings, lemma_join_len,
    lemma_sum_lens_window, lemma_sum_lens_nonneg, lemma_sum_lens_concat, lemma_split_join,
    lemma_join_cons, lemma_split_pieces_valid,
};

verus! {

broadcast use {vstd::utf8::encode_utf8_valid_utf8, vstd::utf8::encode_utf8_decode_utf8};

// ── specification ───────────────────────────────────────────────────────────

/// Separators tried after the configured one, in order.
pub open spec fn fallback_separators() -> Seq<Seq<u8>> {
    seq![seq![10u8, 10u8], seq![10u8], seq![46u8, 32u8], seq![32u8]]
}

/// Appends `s` unless it is already present.
pub open spec fn push_new(seps: Seq<Seq<u8>>, s: Seq<u8>) -> Seq<Seq<u8>> {
    if seps.contains(s) {
        seps
    } else {
        seps.push(s)
    }
}

/// The separator hierarchy: the configured separator, then each fallback
/// that is not already in the list.
pub open spec fn separators(primary: Seq<u8>) -> Seq<Seq<u8>> {
    let f = fallback_separators();
    push_new(push_new(push_new(push_new(seq![primary], f[0]), f[1]), f[2]), f[3])
}

/// `[x]`, or nothing when `x` is the configured separator.
pub open spec fn unless_primary(x: Seq<u8>, primary: Seq<u8>) -> Seq<Seq<u8>> {
    if x == primary {
        seq![]
    } else {
        seq![x]
    }
}

/// The separators are tried in a fixed order: the configured one first,
/// then a blank line, a line feed, a sentence end (". ") and a space, each
/// of these left out only where it is the configured one.
pub proof fn law_separator_order(primary: Seq<u8>)
    ensures
        separators(primary) == seq![primary] + unless_primary(seq![10u8, 10u8], primary)
            + unless_primary(seq![10u8], primary) + unless_primary(seq![46u8, 32u8], primary)
            + unless_primary(seq![32u8], primary),
{
    let f = fallback_separators();
    let a = seq![10u8, 10u8];
    let b = seq![10u8];
    let c = seq![46u8, 32u8];
    let d = seq![32u8];
    assert(f[0] == a && f[1] == b && f[2] == c && f[3] == d);
    assert(a != b) by {
        assert(a.len() != b.len());
    }
    assert(a != d) by {
        assert(a.len() != d.len());
    }
    assert(c != b) by {
        assert(c.len() != b.len());
    }
    assert(c != d) by {
        assert(c.len() != d.len());
    }
    assert(a != c) by {
        assert(a[0] != c[0]);
    }
    assert(b != d) by {
        assert(b[0] != d[0]);
    }
    let s0 = seq![primary];
    let s1 = s0 + unless_primary(a, primary);
    let s2 = s1 + unless_primary(b, primary);
    let s3 = s2 + unless_primary(c, primary);
    let s4 = s3 + unless_primary(d, primary);
    assert(s0.contains(a) == (a == primary)) by {
        if s0.contains(a) {
            let i = choose|i: int| 0 <= i < s0.len() && s0[i] == a;
            assert(i == 0);
        }
        if a == primary {
            assert(s0[0] == a);
        }
    }
    assert(push_new(s0, a) =~= s1);
    assert(s1.contains(b) == (b == primary)) by {
        if s1.contains(b) {
            let i = choose|i: int| 0 <= i < s1.len() && s1[i] == b;
            assert(i == 0 || s1[i] == a);
        }
        if b == primary {
            assert(s1[0] == b);
        }
    }
    assert(push_new(s1, b) =~= s2);
    assert(s2.contains(c) == (c == primary)) by {
        if s2.contains(c) {
            let i = choose|i: int| 0 <= i < s2.len() && s2[i] == c;
            assert(i == 0 || s2[i] == a || s2[i] == b);
        }
        if c == primary {
            assert(s2[0] == c);
        }
    }
    assert(push_new(s2, c) =~= s3);
    assert(s3.contains(d) == (d == primary)) by {
        if s3.contains(d) {
            let i = choose|i: int| 0 <= i < s3.len() && s3[i] == d;
            assert(i == 0 || s3[i] == a || s3[i] == b || s3[i] == c);
        }
        if d == primary {
            assert(s3[0] == d);
        }
    }
    assert(push_new(s3, d) =~= s4);
}

/// Pieces that are not all whitespace, in order.
pub open spec fn keep_nonblank(s: Seq<Seq<u8>>) -> Seq<Seq<u8>>
    decreases s.len(),
{
    if s.len() == 0 {
        seq![]
    } else {
        let r = keep_nonblank(s.drop_last());
        if blank(s.last()) {
            r
        } else {
            r.push(s.last())
        }
    }
}

/// The largest character boundary in `(start, j]`, or `start` when there is
/// none.
pub open spec fn last_boundary(t: Seq<u8>, start: int, j: int) -> int
    decreases j - start,
{
    if j <= start {
        start
    } else if is_char_boundary(t, j) {
        j
    } else {
        last_boundary(t, start, j - 1)
    }
}

/// Cuts `t[start..]` into pieces of at most `cs` bytes, each ending on a
/// character boundary.  `None` stands for the inputs on which the cut cannot
/// advance (a character wider than `cs` bytes, or `cs == 0`).
pub open spec fn force_from(t: Seq<u8>, start: int, cs: int) -> Option<Seq<Seq<u8>>>
    decreases t.len() - start,
{
    if start < 0 || start >= t.len() {
        Some(seq![])
    } else {
        let end = if cs > t.len() - start {
            t.len() as int
        } else {
            start + cs
        };
        let b = last_boundary(t, start, end);
        if b <= start || b > t.len() {
            None
        } else {
            match force_from(t, b, cs) {
                Some(rest) => Some(seq![t.subrange(start, b)] + rest),
                None => None,
            }
        }
    }
}

/// Byte-size cut of a whole text.
pub open spec fn force_split_spec(t: Seq<u8>, cs: int) -> Option<Seq<Seq<u8>>> {
    force_from(t, 0, cs)
}

/// Drops pieces from the front of the window until its joined length is at
/// most `ov` and `need` more bytes fit within `cs`.
pub open spec fn drop_front(cur: Seq<Seq<u8>>, sep: Seq<u8>, ov: int, need: int, cs: int) -> Seq<
    Seq<u8>,
>
    decreases cur.len(),
{
    if cur.len() > 0 && (join(cur, sep).len() > ov || join(cur, sep).len() + need > cs) {
        drop_front(cur.drop_first(), sep, ov, need, cs)
    } else {
        cur
    }
}

/// Greedy merge of `splits[k..]` given the chunks emitted so far and the
/// current window.
pub open spec fn merge_from(
    splits: Seq<Seq<u8>>,
    k: int,
    docs: Seq<Seq<u8>>,
    cur: Seq<Seq<u8>>,
    sep: Seq<u8>,
    cs: int,
    ov: int,
) -> Seq<Seq<u8>>
    decreases splits.len() - k,
{
    if k < 0 || k >= splits.len() {
        if cur.len() > 0 && !blank(join(cur, sep)) {
            docs.push(join(cur, sep))
        } else {
            docs
        }
    } else {
        let d = splits[k];
        let sep_cost = if cur.len() == 0 {
            0
        } else {
            sep.len() as int
        };
        let over = cur.len() > 0 && join(cur, sep).len() + sep_cost + d.len() > cs;
        let docs2 = if over && !blank(join(cur, sep)) {
            docs.push(join(cur, sep))
        } else {
            docs
        };
        let cur2 = if over {
            drop_front(cur, sep, ov, (sep.len() + d.len()) as int, cs)
        } else {
            cur
        };
        merge_from(splits, k + 1, docs2, cur2.push(d), sep, cs, ov)
    }
}

/// Merges small pieces into chunks of at most `cs` bytes joined by `sep`,
/// carrying up to `ov` bytes of trailing context into the next chunk.
pub open spec fn merge_spec(splits: Seq<Seq<u8>>, sep: Seq<u8>, cs: int, ov: int) -> Seq<Seq<u8>> {
    merge_from(splits, 0, seq![], seq![], sep, cs, ov)
}

/// Index of the first separator (from `i` on) that occurs in `t`.
pub open spec fn first_sep(t: Seq<u8>, seps: Seq<Seq<u8>>, i: int) -> Option<int>
    decreases seps.len() - i,
{
    if i < 0 || i >= seps.len() {
        None
    } else if contains(t, seps[i]) {
        Some(i)
    } else {
        first_sep(t, seps, i + 1)
    }
}

/// A text without the configured separator and without a blank line, but
/// with a line feed, is split first at its line feeds.
pub proof fn law_line_feed_before_words(t: Seq<u8>, primary: Seq<u8>)
    requires
        !contains(t, primary),
        !contains(t, seq![10u8, 10u8]),
        contains(t, seq![10u8]),
    ensures
        first_sep(t, separators(primary), 0) is Some,
        separators(primary)[first_sep(t, separators(primary), 0).unwrap()] == seq![10u8],
{
    law_separator_order(primary);
    let seps = separators(primary);
    let a = seq![10u8, 10u8];
    let b = seq![10u8];
    assert(b != primary);
    assert(seps[0] == primary);
    if a == primary {
        assert(seps[1] == b);
        assert(first_sep(t, seps, 1) == Some(1int));
    } else {
        assert(seps[1] == a);
        assert(seps[2] == b);
        assert(first_sep(t, seps, 2) == Some(2int));
        assert(first_sep(t, seps, 1) == Some(2int));
    }
}

/// Recursive split of `t` with the separator hierarchy `seps`.  `None`
/// stands for the inputs on which a byte-size cut cannot advance.
pub open spec fn rsplit(t: Seq<u8>, seps: Seq<Seq<u8>>, cs: int, ov: int) -> Option<
    Seq<Seq<u8>>,
>
    decreases seps.len() + 1, 0int,
{
    if blank(t) {
        Some(seq![])
    } else if t.len() <= cs {
        Some(seq![t])
    } else {
        match first_sep(t, seps, 0) {
            None => force_split_spec(t, cs),
            Some(i) => if 0 <= i < seps.len() {
                rs_fold(
                    keep_nonblank(split(t, seps[i])),
                    0,
                    seq![],
                    seq![],
                    seps[i],
                    seps.subrange(i + 1, seps.len() as int),
                    cs,
                    ov,
                )
            } else {
                None
            },
        }
    }
}

/// Processing of the nonblank pieces `raw[k..]` of one split level: short
/// pieces are gathered and merged, long ones are split further.
pub open spec fn rs_fold(
    raw: Seq<Seq<u8>>,
    k: int,
    good: Seq<Seq<u8>>,
    fin: Seq<Seq<u8>>,
    sep: Seq<u8>,
    tail: Seq<Seq<u8>>,
    cs: int,
    ov: int,
) -> Option<Seq<Seq<u8>>>
    decreases tail.len() + 1, raw.len() - k + 1,
{
    if k < 0 || k >= raw.len() {
        if good.len() > 0 {
            Some(fin + merge_spec(good, sep, cs, ov))
        } else {
            Some(fin)
        }
    } else {
        let piece = raw[k];
        if piece.len() < cs {
            rs_fold(raw, k + 1, good.push(piece), fin, sep, tail, cs, ov)
        } else {
            let fin2 = if good.len() > 0 {
                fin + merge_spec(good, sep, cs, ov)
            } else {
                fin
            };
            let sub = if tail.len() == 0 {
                force_split_spec(piece, cs)
            } else {
                rsplit(piece, tail, cs, ov)
            };
            match sub {
                Some(x) => rs_fold(raw, k + 1, seq![], fin2 + x, sep, tail, cs, ov),
                None => None,
            }
        }
    }
}

/// The chunks `split_text` produces for `t`.
pub open spec fn split_text_spec(t: Seq<u8>, primary: Seq<u8>, cs: int, ov: int) -> Option<
    Seq<Seq<u8>>,
> {
    if blank(t) {
        Some(seq![])
    } else {
        rsplit(t, separators(primary), cs, ov)
    }
}

// ── lemmas ──────────────────────────────────────────────────────────────────

/// Joined length of a nonempty window of pieces is bounded by the whole.
pub proof fn lemma_join_window_len(s: Seq<Seq<u8>>, i: int, j: int, sep: Seq<u8>)
    requires
        0 <= i <= j <= s.len(),
    ensures
        join(s.subrange(i, j), sep).len() <= join(s, sep).len(),
{
    let w = s.subrange(i, j);
    lemma_sum_lens_window(s, i, j);
    if w.len() > 0 {
        lemma_join_len(w, sep);
        lemma_join_len(s, sep);
        let a = w.len() - 1;
        let b = s.len() - 1;
        let c = sep.len() as int;
        assert(a * c <= b * c) by (nonlinear_arith)
            requires
                0 <= a <= b,
                0 <= c,
        ;
    }
}

/// Dropping the nonblank filter never shortens the total.
pub proof fn lemma_keep_nonblank_bound(s: Seq<Seq<u8>>)
    ensures
        sum_lens(keep_nonblank(s)) <= sum_lens(s),
        keep_nonblank(s).len() <= s.len(),
    decreases s.len(),
{
    if s.len() > 0 {
        lemma_keep_nonblank_bound(s.drop_last());
        let r = keep_nonblank(s.drop_last());
        assert(r.push(s.last()).drop_last() =~= r);
        lemma_sum_lens_nonneg(s.drop_last());
    }
}

/// Joined length of the nonblank pieces is bounded by the whole.
pub proof fn lemma_join_keep_len(s: Seq<Seq<u8>>, sep: Seq<u8>)
    ensures
        join(keep_nonblank(s), sep).len() <= join(s, sep).len(),
{
    let k = keep_nonblank(s);
    lemma_keep_nonblank_bound(s);
    if k.len() > 0 {
        lemma_join_len(k, sep);
        lemma_join_len(s, sep);
        let a = k.len() - 1;
        let b = s.len() - 1;
        let c = sep.len() as int;
        assert(a * c <= b * c) by (nonlinear_arith)
            requires
                0 <= a <= b,
                0 <= c,
        ;
    }
}

/// The join of a window grows by one piece and a separator.
pub proof fn lemma_join_push(cur: Seq<Seq<u8>>, d: Seq<u8>, sep: Seq<u8>)
    ensures
        cur.len() == 0 ==> join(cur.push(d), sep) == d,
        cur.len() > 0 ==> join(cur.push(d), sep) == join(cur, sep) + sep + d,
{
    assert(cur.push(d).drop_last() =~= cur);
}

/// Removing the first piece of a window shortens its join accordingly.
pub proof fn lemma_join_drop_first_len(cur: Seq<Seq<u8>>, sep: Seq<u8>)
    requires
        cur.len() > 0,
    ensures
        join(cur.drop_first(), sep).len() == join(cur, sep).len() - cur[0].len() - (if cur.len()
            > 1 {
            sep.len() as int
        } else {
            0
        }),
{
    lemma_join_len(cur, sep);
    lemma_sum_lens_concat(seq![cur[0]], cur.drop_first());
    assert(seq![cur[0]] + cur.drop_first() =~= cur);
    assert(seq![cur[0]].drop_last() =~= Seq::<Seq<u8>>::empty());
    assert(sum_lens(seq![cur[0]]) == sum_lens(Seq::<Seq<u8>>::empty()) + cur[0].len());
    if cur.len() > 1 {
        lemma_join_len(cur.drop_first(), sep);
        let a = cur.len() - 1;
        let c = sep.len() as int;
        assert(a * c == (a - 1) * c + c) by (nonlinear_arith);
    } else {
        assert(cur.drop_first().len() == 0);
    }
}

/// Every piece has at most `cs` bytes.
pub open spec fn all_fit(s: Seq<Seq<u8>>, cs: int) -> bool {
    forall|i: int| 0 <= i < s.len() ==> (#[trigger] s[i]).len() <= cs
}

proof fn lemma_all_fit_concat(a: Seq<Seq<u8>>, b: Seq<Seq<u8>>, cs: int)
    requires
        all_fit(a, cs),
        all_fit(b, cs),
    ensures
        all_fit(a + b, cs),
{
    assert forall|i: int| 0 <= i < (a + b).len() implies (#[trigger] (a + b)[i]).len() <= cs by {
        if i < a.len() {
            assert((a + b)[i] == a[i]);
        } else {
            assert((a + b)[i] == b[i - a.len()]);
        }
    }
}

proof fn lemma_force_from_fits(t: Seq<u8>, start: int, cs: int)
    requires
        force_from(t, start, cs) is Some,
    ensures
        all_fit(force_from(t, start, cs).unwrap(), cs),
    decreases t.len() - start,
{
    if 0 <= start < t.len() {
        let end = if cs > t.len() - start {
            t.len() as int
        } else {
            start + cs
        };
        lemma_last_boundary_range(t, start, end);
        let b = last_boundary(t, start, end);
        lemma_force_from_fits(t, b, cs);
        let rest = force_from(t, b, cs).unwrap();
        lemma_all_fit_concat(seq![t.subrange(start, b)], rest, cs);
    }
}

proof fn lemma_last_boundary_range(t: Seq<u8>, start: int, j: int)
    ensures
        j >= start ==> start <= last_boundary(t, start, j) <= j,
    decreases j - start,
{
    if j > start && !is_char_boundary(t, j) {
        lemma_last_boundary_range(t, start, j - 1);
    }
}

proof fn lemma_drop_front_fits(cur: Seq<Seq<u8>>, sep: Seq<u8>, ov: int, need: int, cs: int)
    requires
        forall|i: int| 0 <= i < cur.len() ==> (#[trigger] cur[i]).len() > 0,
    ensures
        drop_front(cur, sep, ov, need, cs).len() == 0 || join(drop_front(cur, sep, ov, need, cs), sep).len()
            + need <= cs,
        forall|i: int|
            0 <= i < drop_front(cur, sep, ov, need, cs).len() ==> (#[trigger] drop_front(
                cur,
                sep,
                ov,
                need,
                cs,
            )[i]).len() > 0,
    decreases cur.len(),
{
    if cur.len() > 0 && (join(cur, sep).len() > ov || join(cur, sep).len() + need > cs) {
        assert forall|i: int| 0 <= i < cur.drop_first().len() implies (
        #[trigger] cur.drop_first()[i]).len() > 0 by {
            assert(cur.drop_first()[i] == cur[i + 1]);
        }
        lemma_drop_front_fits(cur.drop_first(), sep, ov, need, cs);
    }
}

proof fn lemma_merge_from_fits(
    splits: Seq<Seq<u8>>,
    k: int,
    docs: Seq<Seq<u8>>,
    cur: Seq<Seq<u8>>,
    sep: Seq<u8>,
    cs: int,
    ov: int,
)
    requires
        0 <= k,
        forall|i: int| 0 <= i < splits.len() ==> 0 < (#[trigger] splits[i]).len() < cs,
        forall|i: int| 0 <= i < cur.len() ==> (#[trigger] cur[i]).len() > 0,
        all_fit(docs, cs),
        join(cur, sep).len() <= cs,
    ensures
        all_fit(merge_from(splits, k, docs, cur, sep, cs, ov), cs),
    decreases splits.len() - k,
{
    if k < splits.len() {
        let d = splits[k];
        let sep_cost = if cur.len() == 0 {
            0
        } else {
            sep.len() as int
        };
        let over = cur.len() > 0 && join(cur, sep).len() + sep_cost + d.len() > cs;
        let docs2 = if over && !blank(join(cur, sep)) {
            docs.push(join(cur, sep))
        } else {
            docs
        };
        let cur2 = if over {
            drop_front(cur, sep, ov, (sep.len() + d.len()) as int, cs)
        } else {
            cur
        };
        if over {
            lemma_drop_front_fits(cur, sep, ov, (sep.len() + d.len()) as int, cs);
        }
        assert(all_fit(docs2, cs)) by {
            assert forall|i: int| 0 <= i < docs2.len() implies (#[trigger] docs2[i]).len() <= cs by {
                if i < docs.len() {
                    assert(docs2[i] == docs[i]);
                }
            }
        }
        lemma_join_push(cur2, d, sep);
        assert forall|i: int| 0 <= i < cur2.push(d).len() implies (
        #[trigger] cur2.push(d)[i]).len() > 0 by {
            if i < cur2.len() {
                assert(cur2.push(d)[i] == cur2[i]);
            }
        }
        lemma_merge_from_fits(splits, k + 1, docs2, cur2.push(d), sep, cs, ov);
    } else {
        assert forall|i: int| 0 <= i < docs.push(join(cur, sep)).len() implies (
        #[trigger] docs.push(join(cur, sep))[i]).len() <= cs by {
            if i < docs.len() {
                assert(docs.push(join(cur, sep))[i] == docs[i]);
            }
        }
    }
}

proof fn lemma_keep_nonblank_nonempty(s: Seq<Seq<u8>>)
    ensures
        forall|i: int| 0 <= i < keep_nonblank(s).len() ==> (#[trigger] keep_nonblank(s)[i]).len() > 0,
    decreases s.len(),
{
    if s.len() > 0 {
        lemma_keep_nonblank_nonempty(s.drop_last());
        let r = keep_nonblank(s.drop_last());
        if !blank(s.last()) {
            assert(s.last().len() > 0) by {
                if s.last().len() == 0 {
                    assert(decode_utf8(s.last()) =~= Seq::<char>::empty());
                }
            }
            assert forall|i: int| 0 <= i < r.push(s.last()).len() implies (#[trigger] r.push(
                s.last(),
            )[i]).len() > 0 by {
                if i < r.len() {
                    assert(r.push(s.last())[i] == r[i]);
                }
            }
        }
    }
}

proof fn lemma_rsplit_fits(t: Seq<u8>, seps: Seq<Seq<u8>>, cs: int, ov: int)
    requires
        rsplit(t, seps, cs, ov) is Some,
    ensures
        all_fit(rsplit(t, seps, cs, ov).unwrap(), cs),
    decreases seps.len() + 1, 0int,
{
    if blank(t) {
    } else if t.len() <= cs {
    } else {
        match first_sep(t, seps, 0) {
            None => {
                lemma_force_from_fits(t, 0, cs);
            },
            Some(i) => {
                let raw = keep_nonblank(split(t, seps[i]));
                lemma_keep_nonblank_nonempty(split(t, seps[i]));
                lemma_rs_fold_fits(
                    raw,
                    0,
                    seq![],
                    seq![],
                    seps[i],
                    seps.subrange(i + 1, seps.len() as int),
                    cs,
                    ov,
                );
            },
        }
    }
}

proof fn lemma_rs_fold_fits(
    raw: Seq<Seq<u8>>,
    k: int,
    good: Seq<Seq<u8>>,
    fin: Seq<Seq<u8>>,
    sep: Seq<u8>,
    tail: Seq<Seq<u8>>,
    cs: int,
    ov: int,
)
    requires
        0 <= k,
        forall|i: int| 0 <= i < raw.len() ==> (#[trigger] raw[i]).len() > 0,
        forall|i: int| 0 <= i < good.len() ==> 0 < (#[trigger] good[i]).len() < cs,
        all_fit(fin, cs),
        rs_fold(raw, k, good, fin, sep, tail, cs, ov) is Some,
    ensures
        all_fit(rs_fold(raw, k, good, fin, sep, tail, cs, ov).unwrap(), cs),
    decreases tail.len() + 1, raw.len() - k + 1,
{
    if k >= raw.len() {
        if good.len() > 0 {
            lemma_merge_from_fits(good, 0, seq![], seq![], sep, cs, ov);
            lemma_all_fit_concat(fin, merge_spec(good, sep, cs, ov), cs);
        }
    } else {
        let piece = raw[k];
        if piece.len() < cs {
            assert forall|i: int| 0 <= i < good.push(piece).len() implies 0 < (
            #[trigger] good.push(piece)[i]).len() < cs by {
                if i < good.len() {
                    assert(good.push(piece)[i] == good[i]);
                }
            }
            lemma_rs_fold_fits(raw, k + 1, good.push(piece), fin, sep, tail, cs, ov);
        } else {
            let fin2 = if good.len() > 0 {
                fin + merge_spec(good, sep, cs, ov)
            } else {
                fin
            };
            if good.len() > 0 {
                lemma_merge_from_fits(good, 0, seq![], seq![], sep, cs, ov);
                lemma_all_fit_concat(fin, merge_spec(good, sep, cs, ov), cs);
            }
            let sub = if tail.len() == 0 {
                force_split_spec(piece, cs)
            } else {
                rsplit(piece, tail, cs, ov)
            };
            if tail.len() == 0 {
                lemma_force_from_fits(piece, 0, cs);
            } else {
                lemma_rsplit_fits(piece, tail, cs, ov);
            }
            let x = sub.unwrap();
            lemma_all_fit_concat(fin2, x, cs);
            lemma_rs_fold_fits(raw, k + 1, seq![], fin2 + x, sep, tail, cs, ov);
        }
    }
}

/// Every chunk the splitter produces is at most the configured chunk size,
/// whatever the overlap.
pub proof fn law_chunks_fit(t: Seq<u8>, primary: Seq<u8>, chunk_size: int, overlap: int)
    requires
        split_text_spec(t, primary, chunk_size, overlap) is Some,
    ensures
        forall|i: int|
            0 <= i < split_text_spec(t, primary, chunk_size, overlap).unwrap().len() ==> (
            #[trigger] split_text_spec(t, primary, chunk_size, overlap).unwrap()[i]).len()
                <= chunk_size,
{
    if !blank(t) {
        lemma_rsplit_fits(t, separators(primary), chunk_size, overlap);
    }
}

/// Merging pieces shorter than the chunk size gives chunks of at most the
/// chunk size, whatever the overlap.
pub proof fn law_merge_fits(splits: Seq<Seq<u8>>, sep: Seq<u8>, chunk_size: int, overlap: int)
    requires
        0 <= chunk_size,
        forall|i: int| 0 <= i < splits.len() ==> 0 < (#[trigger] splits[i]).len() < chunk_size,
    ensures
        forall|i: int|
            0 <= i < merge_spec(splits, sep, chunk_size, overlap).len() ==> (#[trigger] merge_spec(
                splits,
                sep,
                chunk_size,
                overlap,
            )[i]).len() <= chunk_size,
{
    lemma_merge_from_fits(splits, 0, seq![], seq![], sep, chunk_size, overlap);
}

/// Cutting by bytes loses nothing and makes no empty or oversized piece:
/// the pieces, put back together, are the text, and each holds between 1
/// and `chunk_size` bytes.
pub proof fn law_force_split_pieces(t: Seq<u8>, chunk_size: int)
    requires
        force_split_spec(t, chunk_size) is Some,
    ensures
        join(force_split_spec(t, chunk_size).unwrap(), seq![]) == t,
        forall|i: int|
            0 <= i < force_split_spec(t, chunk_size).unwrap().len() ==> 0 < (
            #[trigger] force_split_spec(t, chunk_size).unwrap()[i]).len() <= chunk_size,
{
    lemma_force_from_pieces(t, 0, chunk_size);
    lemma_force_from_fits(t, 0, chunk_size);
    assert(t.subrange(0, t.len() as int) =~= t);
}

/// The pieces of `t[start..]` join back to it and none is empty.
proof fn lemma_force_from_pieces(t: Seq<u8>, start: int, cs: int)
    requires
        0 <= start <= t.len(),
        force_from(t, start, cs) is Some,
    ensures
        join(force_from(t, start, cs).unwrap(), seq![]) == t.subrange(start, t.len() as int),
        forall|i: int|
            0 <= i < force_from(t, start, cs).unwrap().len() ==> (#[trigger] force_from(
                t,
                start,
                cs,
            ).unwrap()[i]).len() > 0,
    decreases t.len() - start,
{
    if start < t.len() {
        let end = if cs > t.len() - start {
            t.len() as int
        } else {
            start + cs
        };
        let b = last_boundary(t, start, end);
        lemma_force_from_pieces(t, b, cs);
        let rest = force_from(t, b, cs).unwrap();
        let all = force_from(t, start, cs).unwrap();
        assert(all == seq![t.subrange(start, b)] + rest);
        if rest.len() == 0 {
            assert(all =~= seq![t.subrange(start, b)]);
            assert(b == t.len()) by {
                if b < t.len() {
                    assert(force_from(t, b, cs) != Some(Seq::<Seq<u8>>::empty()));
                }
            }
        } else {
            lemma_join_cons(t.subrange(start, b), rest, seq![]);
        }
        assert(t.subrange(start, b) + seq![] + t.subrange(b, t.len() as int) =~= t.subrange(
            start,
            t.len() as int,
        ));
        assert forall|i: int| 0 <= i < all.len() implies (#[trigger] all[i]).len() > 0 by {
            if i > 0 {
                assert(all[i] == rest[i - 1]);
            }
        }
    } else {
        assert(t.subrange(start, t.len() as int) =~= Seq::<u8>::empty());
    }
}

/// Cutting valid UTF-8 text by bytes always succeeds once a chunk holds at
/// least 4 bytes, the widest character.
pub proof fn law_force_split_succeeds(t: Seq<u8>, chunk_size: int)
    requires
        valid_utf8(t),
        chunk_size >= 4,
    ensures
        force_split_spec(t, chunk_size) is Some,
{
    is_char_boundary_start_end_of_seq(t);
    lemma_force_from_some(t, 0, chunk_size);
}

/// Cutting ASCII text by bytes fills every piece but the last with exactly
/// `chunk_size` bytes, so that there are `ceil(t.len() / chunk_size)`
/// pieces.
pub proof fn law_force_split_ascii(t: Seq<u8>, chunk_size: int)
    requires
        chunk_size >= 1,
        forall|i: int| 0 <= i < t.len() ==> #[trigger] t[i] < 0x80,
    ensures
        force_split_spec(t, chunk_size) is Some,
        force_split_spec(t, chunk_size).unwrap().len() == (t.len() + chunk_size - 1) / chunk_size,
        forall|i: int|
            0 <= i < force_split_spec(t, chunk_size).unwrap().len() - 1 ==> (
            #[trigger] force_split_spec(t, chunk_size).unwrap()[i]).len() == chunk_size,
{
    lemma_ascii_boundaries(t);
    lemma_force_from_ascii(t, 0, chunk_size);
}

/// ASCII bytes are valid UTF-8 and every position in them is a character
/// boundary.
proof fn lemma_ascii_boundaries(t: Seq<u8>)
    requires
        forall|i: int| 0 <= i < t.len() ==> #[trigger] t[i] < 0x80,
    ensures
        valid_utf8(t),
        forall|k: int| 0 <= k <= t.len() ==> #[trigger] is_char_boundary(t, k),
{
    assert(t.subrange(0, 0) =~= Seq::<u8>::empty());
    assert(partial_valid_utf8(t, 0));
    assert forall|i: int| 0 <= 0 <= i < t.len() <= t.len() implies #[trigger] is_leading_byte_width_1(
        t[i],
    ) by {
        assert(t[i] < 0x80);
    }
    partial_valid_utf8_extend_ascii_block(t, 0, t.len() as int);
    assert(t.subrange(0, t.len() as int) =~= t);
    is_char_boundary_start_end_of_seq(t);
    assert forall|k: int| 0 <= k <= t.len() implies #[trigger] is_char_boundary(t, k) by {
        if k < t.len() {
            is_char_boundary_iff_not_is_continuation_byte(t, k);
            assert(t[k] < 0x80);
        }
    }
}

/// Where every position is a character boundary, the cut of `t[start..]`
/// makes pieces of exactly `cs` bytes but the last.
proof fn lemma_force_from_ascii(t: Seq<u8>, start: int, cs: int)
    requires
        cs >= 1,
        0 <= start <= t.len(),
        forall|k: int| 0 <= k <= t.len() ==> #[trigger] is_char_boundary(t, k),
    ensures
        force_from(t, start, cs) is Some,
        force_from(t, start, cs).unwrap().len() == (t.len() - start + cs - 1) / cs,
        forall|i: int|
            0 <= i < force_from(t, start, cs).unwrap().len() - 1 ==> (#[trigger] force_from(
                t,
                start,
                cs,
            ).unwrap()[i]).len() == cs,
    decreases t.len() - start,
{
    if start < t.len() {
        let end = if cs > t.len() - start {
            t.len() as int
        } else {
            start + cs
        };
        assert(is_char_boundary(t, end));
        assert(last_boundary(t, start, end) == end);
        lemma_force_from_ascii(t, end, cs);
        let rest = force_from(t, end, cs).unwrap();
        let all = force_from(t, start, cs).unwrap();
        assert(all == seq![t.subrange(start, end)] + rest);
        vstd::arithmetic::div_mod::lemma_div_plus_one(t.len() - start - 1, cs);
        if end == t.len() {
            vstd::arithmetic::div_mod::lemma_basic_div(t.len() - start - 1, cs);
        }
        assert forall|i: int| 0 <= i < all.len() - 1 implies (#[trigger] all[i]).len() == cs by {
            if i > 0 {
                assert(all[i] == rest[i - 1]);
            }
        }
    } else {
        vstd::arithmetic::div_mod::lemma_basic_div(cs - 1, cs);
    }
}

/// From a character boundary, the cut of valid UTF-8 text succeeds.
proof fn lemma_force_from_some(t: Seq<u8>, start: int, cs: int)
    requires
        valid_utf8(t),
        cs >= 4,
        0 <= start <= t.len(),
        is_char_boundary(t, start),
    ensures
        force_from(t, start, cs) is Some,
    decreases t.len() - start,
{
    if start < t.len() {
        let end = if cs > t.len() - start {
            t.len() as int
        } else {
            start + cs
        };
        let l = lemma_boundary_within_four(t, start);
        lemma_last_boundary_ge(t, start, end, start + l);
        lemma_last_boundary_range(t, start, end);
        lemma_last_boundary_is_boundary(t, start, end);
        let b = last_boundary(t, start, end);
        lemma_force_from_some(t, b, cs);
    }
}

/// After a character boundary inside valid UTF-8 text, the next one lies at
/// most 4 bytes on.
proof fn lemma_boundary_within_four(t: Seq<u8>, start: int) -> (l: int)
    requires
        valid_utf8(t),
        is_char_boundary(t, start),
        0 <= start < t.len(),
    ensures
        1 <= l <= 4,
        start + l <= t.len(),
        is_char_boundary(t, start + l),
{
    valid_utf8_split(t, start);
    let u = t.subrange(start, t.len() as int);
    assert(valid_utf8(u));
    assert(valid_first_scalar(u) && valid_utf8(pop_first_scalar(u)));
    let l = length_of_first_scalar(u);
    assert(1 <= l <= 4 && l <= u.len());
    is_char_boundary_start_end_of_seq(t);
    if start + l < t.len() {
        let rest = pop_first_scalar(u);
        assert(rest.len() > 0);
        assert(valid_first_scalar(rest));
        assert(rest[0] == t[start + l]);
        assert(!is_continuation_byte(t[start + l]));
        is_char_boundary_iff_not_is_continuation_byte(t, start + l);
    }
    l
}

/// The last boundary up to `j` is at least any boundary in `(start, j]`.
proof fn lemma_last_boundary_ge(t: Seq<u8>, start: int, j: int, k: int)
    requires
        start < k <= j,
        is_char_boundary(t, k),
    ensures
        last_boundary(t, start, j) >= k,
    decreases j - start,
{
    if !is_char_boundary(t, j) {
        lemma_last_boundary_ge(t, start, j - 1, k);
    }
}

/// The last boundary past `start` is a boundary.
proof fn lemma_last_boundary_is_boundary(t: Seq<u8>, start: int, j: int)
    ensures
        last_boundary(t, start, j) > start ==> is_char_boundary(t, last_boundary(t, start, j)),
    decreases j - start,
{
    if j > start && !is_char_boundary(t, j) {
        lemma_last_boundary_is_boundary(t, start, j - 1);
    }
}

/// Every sequence of the list is valid UTF-8.
pub open spec fn all_valid(s: Seq<Seq<u8>>) -> bool {
    forall|i: int| 0 <= i < s.len() ==> valid_utf8(#[trigger] s[i])
}

/// Splitting valid UTF-8 text succeeds once a chunk holds at least 4 bytes,
/// whatever the separator (valid UTF-8) and the overlap.
pub proof fn law_split_text_succeeds(t: Seq<u8>, primary: Seq<u8>, chunk_size: int, overlap: int)
    requires
        valid_utf8(t),
        valid_utf8(primary),
        chunk_size >= 4,
    ensures
        split_text_spec(t, primary, chunk_size, overlap) is Some,
{
    lemma_separators_valid(primary);
    lemma_rsplit_some(t, separators(primary), chunk_size, overlap);
}

/// A document's text is splittable under a configuration whose chunks
/// hold at least 4 bytes.
pub proof fn law_splittable(content: Seq<char>, config: ChunkerConfig)
    requires
        config.chunk_size >= 4,
    ensures
        splittable(bytes_of(content), config),
{
    law_split_text_succeeds(bytes_of(content), bytes_of(config.separator@), config.chunk_size as int, config.overlap as int);
}

/// The separator hierarchy of a valid UTF-8 separator is valid UTF-8.
proof fn lemma_separators_valid(primary: Seq<u8>)
    requires
        valid_utf8(primary),
    ensures
        all_valid(separators(primary)),
{
    let f = fallback_separators();
    assert(valid_utf8(f[0])) by {
        reveal_with_fuel(valid_utf8, 3);
    }
    assert(valid_utf8(f[1])) by {
        reveal_with_fuel(valid_utf8, 2);
    }
    assert(valid_utf8(f[2])) by {
        reveal_with_fuel(valid_utf8, 3);
    }
    assert(valid_utf8(f[3])) by {
        reveal_with_fuel(valid_utf8, 2);
    }
    let s0 = seq![primary];
    assert(all_valid(s0));
    lemma_push_new_valid(s0, f[0]);
    lemma_push_new_valid(push_new(s0, f[0]), f[1]);
    lemma_push_new_valid(push_new(push_new(s0, f[0]), f[1]), f[2]);
    lemma_push_new_valid(push_new(push_new(push_new(s0, f[0]), f[1]), f[2]), f[3]);
}

proof fn lemma_push_new_valid(s: Seq<Seq<u8>>, x: Seq<u8>)
    requires
        all_valid(s),
        valid_utf8(x),
    ensures
        all_valid(push_new(s, x)),
{
    if !s.contains(x) {
        assert forall|i: int| 0 <= i < s.push(x).len() implies valid_utf8(#[trigger] s.push(x)[i]) by {
            if i < s.len() {
                assert(s.push(x)[i] == s[i]);
            }
        }
    }
}

/// The nonblank pieces are pieces.
proof fn lemma_keep_nonblank_valid(s: Seq<Seq<u8>>)
    requires
        all_valid(s),
    ensures
        all_valid(keep_nonblank(s)),
    decreases s.len(),
{
    if s.len() > 0 {
        assert(all_valid(s.drop_last())) by {
            assert forall|i: int| 0 <= i < s.drop_last().len() implies valid_utf8(#[trigger] s.drop_last()[i]) by {
                assert(s.drop_last()[i] == s[i]);
            }
        }
        lemma_keep_nonblank_valid(s.drop_last());
        let r = keep_nonblank(s.drop_last());
        if !blank(s.last()) {
            assert forall|i: int| 0 <= i < r.push(s.last()).len() implies valid_utf8(
                #[trigger] r.push(s.last())[i],
            ) by {
                if i < r.len() {
                    assert(r.push(s.last())[i] == r[i]);
                } else {
                    assert(s[s.len() - 1] == s.last());
                }
            }
        }
    }
}

/// The recursive split of valid UTF-8 text with valid separators succeeds
/// once a chunk holds at least 4 bytes.
proof fn lemma_rsplit_some(t: Seq<u8>, seps: Seq<Seq<u8>>, cs: int, ov: int)
    requires
        valid_utf8(t),
        all_valid(seps),
        cs >= 4,
    ensures
        rsplit(t, seps, cs, ov) is Some,
    decreases seps.len() + 1, 0int,
{
    if blank(t) {
    } else if t.len() <= cs {
    } else {
        match first_sep(t, seps, 0) {
            None => {
                law_force_split_succeeds(t, cs);
            },
            Some(i) => {
                if 0 <= i < seps.len() {
                    lemma_split_pieces_valid(t, seps[i]);
                    let sp = split(t, seps[i]);
                    assert(all_valid(sp));
                    lemma_keep_nonblank_valid(sp);
                    let tail = seps.subrange(i + 1, seps.len() as int);
                    assert(all_valid(tail)) by {
                        assert forall|k: int| 0 <= k < tail.len() implies valid_utf8(#[trigger] tail[k]) by {
                            assert(tail[k] == seps[i + 1 + k]);
                        }
                    }
                    lemma_rs_fold_some(keep_nonblank(sp), 0, seq![], seq![], seps[i], tail, cs, ov);
                } else {
                    lemma_first_sep_range(t, seps, 0);
                }
            },
        }
    }
}

proof fn lemma_first_sep_range(t: Seq<u8>, seps: Seq<Seq<u8>>, i: int)
    requires
        0 <= i,
    ensures
        first_sep(t, seps, i) matches Some(j) ==> i <= j < seps.len(),
    decreases seps.len() - i,
{
    if i < seps.len() && !contains(t, seps[i]) {
        lemma_first_sep_range(t, seps, i + 1);
    }
}

proof fn lemma_rs_fold_some(
    raw: Seq<Seq<u8>>,
    k: int,
    good: Seq<Seq<u8>>,
    fin: Seq<Seq<u8>>,
    sep: Seq<u8>,
    tail: Seq<Seq<u8>>,
    cs: int,
    ov: int,
)
    requires
        0 <= k,
        all_valid(raw),
        all_valid(tail),
        cs >= 4,
    ensures
        rs_fold(raw, k, good, fin, sep, tail, cs, ov) is Some,
    decreases tail.len() + 1, raw.len() - k + 1,
{
    if k < raw.len() {
        let piece = raw[k];
        if piece.len() < cs {
            lemma_rs_fold_some(raw, k + 1, good.push(piece), fin, sep, tail, cs, ov);
        } else {
            let fin2 = if good.len() > 0 {
                fin + merge_spec(good, sep, cs, ov)
            } else {
                fin
            };
            if tail.len() == 0 {
                law_force_split_succeeds(piece, cs);
            } else {
                lemma_rsplit_some(piece, tail, cs, ov);
            }
            let sub = if tail.len() == 0 {
                force_split_spec(piece, cs)
            } else {
                rsplit(piece, tail, cs, ov)
            };
            lemma_rs_fold_some(raw, k + 1, seq![], fin2 + sub.unwrap(), sep, tail, cs, ov);
        }
    }
}

// ── executable ──────────────────────────────────────────────────────────────

/// Cuts `text` into pieces of at most `chunk_size` bytes at character
/// boundaries.
pub fn force_split(text: &str, chunk_size: usize) -> (r: Vec<String>)
    requires
        force_split_spec(text.spec_bytes(), chunk_size as int) is Some,
    ensures
        strings_bytes(r@) == force_split_spec(text.spec_bytes(), chunk_size as int).unwrap(),
{
    let ghost t = text.spec_bytes();
    let ghost cs = chunk_size as int;
    let mut result: Vec<String> = Vec::new();
    let mut start: usize = 0;
    let n = text.as_bytes().len();
    proof {
        is_char_boundary_start_end_of_seq(t);
        assert(strings_bytes(result@) + force_from(t, 0, cs).unwrap() =~= force_from(
            t,
            0,
            cs,
        ).unwrap());
    }
    while start < n
        invariant
            t == text.spec_bytes(),
            cs == chunk_size,
            n == t.len(),
            start <= n,
            is_char_boundary(t, start as int),
            force_from(t, start as int, cs) is Some,
            force_from(t, 0, cs) == Some(
                strings_bytes(result@) + force_from(t, start as int, cs).unwrap(),
            ),
        decreases n - start,
    {
        let end = if chunk_size > n - start {
            n
        } else {
            start + chunk_size
        };
        let mut boundary = end;
        while boundary > start && !text.is_char_boundary(boundary)
            invariant
                t == text.spec_bytes(),
                start <= boundary <= end <= n,
                last_boundary(t, start as int, end as int) == last_boundary(
                    t,
                    start as int,
                    boundary as int,
                ),
            decreases boundary,
        {
            boundary = boundary - 1;
        }
        proof {
            if boundary > start {
                assert(last_boundary(t, start as int, boundary as int) == boundary);
            }
        }
        if boundary == start {
            boundary = end;
        }
        let piece = owned(substr(text, start, boundary));
        let ghost old_res = result@;
        result.push(piece);
        proof {
            assert(strings_bytes(result@) =~= strings_bytes(old_res) + seq![t.subrange(
                start as int,
                boundary as int,
            )]);
            let rest = force_from(t, boundary as int, cs).unwrap();
            assert(force_from(t, start as int, cs).unwrap() == seq![t.subrange(
                start as int,
                boundary as int,
            )] + rest);
            assert(strings_bytes(result@) + rest =~= strings_bytes(old_res) + force_from(
                t,
                start as int,
                cs,
            ).unwrap());
        }
        start = boundary;
    }
    proof {
        assert(strings_bytes(result@) =~= strings_bytes(result@) + force_from(
            t,
            start as int,
            cs,
        ).unwrap());
    }
    result
}


/// Greedily merges pieces into chunks of at most `chunk_size` bytes joined
/// by `sep`, keeping up to `overlap` bytes of the previous chunk as context.
pub fn merge_splits(splits: &Vec<String>, sep: &str, chunk_size: usize, overlap: usize) -> (r:
    Vec<String>)
    requires
        join(strings_bytes(splits@), sep.spec_bytes()).len() <= usize::MAX,
    ensures
        strings_bytes(r@) == merge_spec(
            strings_bytes(splits@),
            sep.spec_bytes(),
            chunk_size as int,
            overlap as int,
        ),
{
    let ghost all = strings_bytes(splits@);
    let ghost p = sep.spec_bytes();
    let ghost cs = chunk_size as int;
    let ghost ov = overlap as int;
    let sep_len = sep.as_bytes().len();
    let mut docs: Vec<String> = Vec::new();
    let mut current: Vec<String> = Vec::new();
    let mut total: usize = 0;
    let mut k: usize = 0;
    let ghost mut a: int = 0;
    proof {
        assert(strings_bytes(docs@) =~= Seq::<Seq<u8>>::empty());
        assert(strings_bytes(current@) =~= all.subrange(0, 0));
    }
    while k < splits.len()
        invariant
            all == strings_bytes(splits@),
            p == sep.spec_bytes(),
            cs == chunk_size,
            ov == overlap,
            sep_len == p.len(),
            join(all, p).len() <= usize::MAX,
            0 <= a <= k <= all.len(),
            strings_bytes(current@) == all.subrange(a, k as int),
            total == join(strings_bytes(current@), p).len(),
            merge_spec(all, p, cs, ov) == merge_from(
                all,
                k as int,
                strings_bytes(docs@),
                strings_bytes(current@),
                p,
                cs,
                ov,
            ),
        decreases all.len() - k,
    {
        let d = &splits[k];
        let d_len = d.as_str().as_bytes().len();
        let ghost dv = all[k as int];
        proof {
            assert(dv == bytes_of(d@));
            lemma_join_push(strings_bytes(current@), dv, p);
            assert(strings_bytes(current@).push(dv) =~= all.subrange(a, k + 1));
            lemma_join_window_len(all, a, k + 1, p);
        }
        let sep_cost = if current.len() == 0 {
            0
        } else {
            sep_len
        };
        let ghost docs0 = strings_bytes(docs@);
        let ghost cur0 = strings_bytes(current@);
        if current.len() != 0 && total + sep_cost + d_len > chunk_size {
            let joined = join_strings(&current, sep);
            if !is_blank(joined.as_str()) {
                docs.push(joined);
                proof {
                    assert(strings_bytes(docs@) =~= docs0.push(join(cur0, p)));
                }
            }
            while current.len() != 0 && (total > overlap || total + sep_len + d_len > chunk_size)
                invariant
                    all == strings_bytes(splits@),
                    p == sep.spec_bytes(),
                    sep_len == p.len(),
                    ov == overlap,
                    cs == chunk_size,
                    d_len == dv.len(),
                    total + sep_len + d_len <= usize::MAX,
                    0 <= a <= k < all.len(),
                    strings_bytes(current@) == all.subrange(a, k as int),
                    total == join(strings_bytes(current@), p).len(),
                    drop_front(cur0, p, ov, (p.len() + dv.len()) as int, cs) == drop_front(
                        strings_bytes(current@),
                        p,
                        ov,
                        (p.len() + dv.len()) as int,
                        cs,
                    ),
                decreases current.len(),
            {
                let removed = current[0].as_str().as_bytes().len();
                proof {
                    lemma_join_drop_first_len(strings_bytes(current@), p);
                    assert(strings_bytes(current@)[0] == bytes_of(current@[0]@));
                }
                total = total.saturating_sub(removed);
                if current.len() > 1 {
                    total = total.saturating_sub(sep_len);
                }
                let ghost before = strings_bytes(current@);
                current.remove(0);
                proof {
                    assert(strings_bytes(current@) =~= before.drop_first());
                    a = a + 1;
                    assert(strings_bytes(current@) =~= all.subrange(a, k as int));
                }
            }
        }
        proof {
            lemma_join_push(strings_bytes(current@), dv, p);
            assert(strings_bytes(current@).push(dv) =~= all.subrange(a, k + 1));
            lemma_join_window_len(all, a, k + 1, p);
        }
        let add_sep = if current.len() == 0 {
            0
        } else {
            sep_len
        };
        total = total + d_len + add_sep;
        let ghost cur1 = strings_bytes(current@);
        current.push(d.clone());
        proof {
            assert(strings_bytes(current@) =~= cur1.push(dv));
            assert(strings_bytes(current@) =~= all.subrange(a, k + 1));
        }
        k = k + 1;
    }
    if current.len() != 0 {
        let joined = join_strings(&current, sep);
        let ghost docs0 = strings_bytes(docs@);
        if !is_blank(joined.as_str()) {
            docs.push(joined);
            proof {
                assert(strings_bytes(docs@) =~= docs0.push(join(strings_bytes(current@), p)));
            }
        }
    }
    docs
}


/// Copy of `v[from..]`.
fn tail_from<'a>(v: &[&'a str], from: usize) -> (r: Vec<&'a str>)
    requires
        from <= v@.len(),
    ensures
        r@ == v@.subrange(from as int, v@.len() as int),
{
    let mut r: Vec<&'a str> = Vec::new();
    let mut i = from;
    while i < v.len()
        invariant
            from <= i <= v@.len(),
            r@ == v@.subrange(from as int, i as int),
        decreases v@.len() - i,
    {
        r.push(v[i]);
        i = i + 1;
        proof {
            assert(r@ =~= v@.subrange(from as int, i as int));
        }
    }
    r
}

/// Splits `text` with the first separator of the hierarchy that occurs in
/// it, merging short pieces and recursing into long ones with the remaining
/// separators (cutting by bytes when none is left).
#[verifier::rlimit(80)]
#[verifier::spinoff_prover]
pub fn recursive_split(text: &str, separators: &[&str], chunk_size: usize, overlap: usize) -> (r:
    Vec<String>)
    requires
        rsplit(text.spec_bytes(), strs_bytes(separators@), chunk_size as int, overlap as int) is Some,
    ensures
        strings_bytes(r@) == rsplit(
            text.spec_bytes(),
            strs_bytes(separators@),
            chunk_size as int,
            overlap as int,
        ).unwrap(),
    decreases separators@.len(),
{
    let ghost t = text.spec_bytes();
    let ghost seps = strs_bytes(separators@);
    let ghost cs = chunk_size as int;
    let ghost ov = overlap as int;
    if is_blank(text) {
        let r: Vec<String> = Vec::new();
        proof {
            assert(strings_bytes(r@) =~= Seq::<Seq<u8>>::empty());
        }
        return r;
    }
    let n = text.as_bytes().len();
    if n <= chunk_size {
        let mut r: Vec<String> = Vec::new();
        r.push(owned(text));
        proof {
            assert(strings_bytes(r@) =~= seq![t]);
            assert(rsplit(t, seps, cs, ov) == Some(seq![t]));
        }
        return r;
    }
    let mut idx: usize = 0;
    let mut found = false;
    while idx < separators.len()
        invariant_except_break
            !found,
        invariant
            idx <= separators@.len(),
            seps == strs_bytes(separators@),
            t == text.spec_bytes(),
            first_sep(t, seps, 0) == first_sep(t, seps, idx as int),
        ensures
            found ==> idx < separators@.len() && contains(t, seps[idx as int]),
            !found ==> idx == separators@.len(),
        decreases separators@.len() - idx,
    {
        if contains_bytes(text.as_bytes(), separators[idx].as_bytes()) {
            found = true;
            break;
        }
        idx = idx + 1;
    }
    if !found {
        proof {
            assert(first_sep(t, seps, idx as int) is None);
            assert(rsplit(t, seps, cs, ov) == force_split_spec(t, cs));
        }
        return force_split(text, chunk_size);
    }
    let sep = separators[idx];
    let ghost p = sep.spec_bytes();
    let tail = tail_from(separators, idx + 1);
    proof {
        assert(first_sep(t, seps, idx as int) == Some(idx as int));
        assert(strs_bytes(tail@) =~= seps.subrange(idx + 1, seps.len() as int));
    }
    let pieces = split_str(text, sep);
    let ghost all_pieces = strs_bytes(pieces@);
    let mut raw: Vec<&str> = Vec::new();
    let mut j: usize = 0;
    proof {
        assert(strs_bytes(raw@) =~= keep_nonblank(all_pieces.take(0)));
    }
    while j < pieces.len()
        invariant
            j <= pieces@.len(),
            all_pieces == strs_bytes(pieces@),
            strs_bytes(raw@) == keep_nonblank(all_pieces.take(j as int)),
        decreases pieces@.len() - j,
    {
        let piece = pieces[j];
        let ghost before = strs_bytes(raw@);
        proof {
            assert(all_pieces.take(j + 1).drop_last() =~= all_pieces.take(j as int));
            assert(all_pieces.take(j + 1).last() == piece.spec_bytes());
        }
        if !is_blank(piece) {
            raw.push(piece);
            proof {
                assert(strs_bytes(raw@) =~= before.push(piece.spec_bytes()));
            }
        }
        j = j + 1;
    }
    let ghost rv = strs_bytes(raw@);
    proof {
        assert(all_pieces.take(pieces@.len() as int) =~= all_pieces);
        lemma_split_join(t, p);
        lemma_join_keep_len(all_pieces, p);
        assert(rsplit(t, seps, cs, ov) == rs_fold(
            rv,
            0,
            seq![],
            seq![],
            p,
            strs_bytes(tail@),
            cs,
            ov,
        ));
    }
    let mut good: Vec<String> = Vec::new();
    let mut final_chunks: Vec<String> = Vec::new();
    let ghost mut g0: int = 0;
    let mut k: usize = 0;
    proof {
        assert(strings_bytes(good@) =~= Seq::<Seq<u8>>::empty());
        assert(strings_bytes(final_chunks@) =~= Seq::<Seq<u8>>::empty());
    }
    while k < raw.len()
        invariant
            rv == strs_bytes(raw@),
            p == sep.spec_bytes(),
            cs == chunk_size,
            ov == overlap,
            tail@.len() < separators@.len(),
            join(rv, p).len() <= usize::MAX,
            0 <= g0 <= k <= rv.len(),
            strings_bytes(good@) == rv.subrange(g0, k as int),
            rs_fold(rv, k as int, strings_bytes(good@), strings_bytes(final_chunks@), p, strs_bytes(tail@), cs, ov) is Some,
            rsplit(t, seps, cs, ov) == rs_fold(
                rv,
                k as int,
                strings_bytes(good@),
                strings_bytes(final_chunks@),
                p,
                strs_bytes(tail@),
                cs,
                ov,
            ),
        decreases rv.len() - k,
    {
        let piece = raw[k];
        let plen = piece.as_bytes().len();
        let ghost gb = strings_bytes(good@);
        let ghost fb = strings_bytes(final_chunks@);
        if plen < chunk_size {
            good.push(owned(piece));
            proof {
                assert(strings_bytes(good@) =~= gb.push(piece.spec_bytes()));
                assert(strings_bytes(good@) =~= rv.subrange(g0, k + 1));
            }
        } else {
            if good.len() != 0 {
                proof {
                    lemma_join_window_len(rv, g0, k as int, p);
                }
                let mut merged = merge_splits(&good, sep, chunk_size, overlap);
                let ghost mb = strings_bytes(merged@);
                final_chunks.append(&mut merged);
                proof {
                    assert(strings_bytes(final_chunks@) =~= fb + mb);
                }
                good.clear();
            }
            let ghost fb2 = strings_bytes(final_chunks@);
            let mut sub = if tail.len() == 0 {
                force_split(piece, chunk_size)
            } else {
                recursive_split(piece, tail.as_slice(), chunk_size, overlap)
            };
            let ghost sb = strings_bytes(sub@);
            final_chunks.append(&mut sub);
            proof {
                assert(strings_bytes(final_chunks@) =~= fb2 + sb);
                assert(strings_bytes(good@) =~= Seq::<Seq<u8>>::empty());
                g0 = k + 1;
                assert(strings_bytes(good@) =~= rv.subrange(g0, k + 1));
            }
        }
        k = k + 1;
    }
    if good.len() != 0 {
        proof {
            lemma_join_window_len(rv, g0, k as int, p);
        }
        let ghost fb = strings_bytes(final_chunks@);
        let mut merged = merge_splits(&good, sep, chunk_size, overlap);
        let ghost mb = strings_bytes(merged@);
        final_chunks.append(&mut merged);
        proof {
            assert(strings_bytes(final_chunks@) =~= fb + mb);
        }
    }
    final_chunks
}

/// Splits document text into chunks using the configured separator first
/// and the fallbacks `"\n\n"`, `"\n"`, `". "`, `" "` after it.
pub fn split_text(text: &str, config: &ChunkerConfig) -> (r: Vec<String>)
    requires
        split_text_spec(
            text.spec_bytes(),
            bytes_of(config.separator@),
            config.chunk_size as int,
            config.overlap as int,
        ) is Some,
    ensures
        strings_bytes(r@) == split_text_spec(
            text.spec_bytes(),
            bytes_of(config.separator@),
            config.chunk_size as int,
            config.overlap as int,
        ).unwrap(),
{
    if is_blank(text) {
        let r: Vec<String> = Vec::new();
        proof {
            assert(strings_bytes(r@) =~= Seq::<Seq<u8>>::empty());
        }
        return r;
    }
    let mut seps: Vec<&str> = Vec::new();
    seps.push(config.separator.as_str());
    let f0 = "\n\n";
    let f1 = "\n";
    let f2 = ". ";
    let f3 = " ";
    proof {
        reveal_strlit("\n\n");
        reveal_strlit("\n");
        reveal_strlit(". ");
        reveal_strlit(" ");
        lemma_ascii_bytes(f0@);
        lemma_ascii_bytes(f1@);
        lemma_ascii_bytes(f2@);
        lemma_ascii_bytes(f3@);
        assert(f0.spec_bytes() =~= fallback_separators()[0]);
        assert(f1.spec_bytes() =~= fallback_separators()[1]);
        assert(f2.spec_bytes() =~= fallback_separators()[2]);
        assert(f3.spec_bytes() =~= fallback_separators()[3]);
        assert(strs_bytes(seps@) =~= seq![bytes_of(config.separator@)]);
    }
    push_if_new(&mut seps, f0);
    push_if_new(&mut seps, f1);
    push_if_new(&mut seps, f2);
    push_if_new(&mut seps, f3);
    recursive_split(text, seps.as_slice(), config.chunk_size, config.overlap)
}

/// Appends `s` to the separator list unless an equal one is present.
fn push_if_new<'a>(seps: &mut Vec<&'a str>, s: &'a str)
    requires
    ensures
        strs_bytes(final(seps)@) == push_new(strs_bytes(old(seps)@), s.spec_bytes()),
{
    let ghost sb = strs_bytes(seps@);
    let mut i: usize = 0;
    while i < seps.len()
        invariant
            i <= seps@.len(),
            seps@ == old(seps)@,
            sb == strs_bytes(seps@),
            forall|k: int| 0 <= k < i ==> sb[k] != s.spec_bytes(),
        decreases seps@.len() - i,
    {
        if str_eq(seps[i], s) {
            proof {
                assert(sb[i as int] == s.spec_bytes());
                assert(sb.contains(s.spec_bytes()));
            }
            return;
        }
        i = i + 1;
    }
    proof {
        if sb.contains(s.spec_bytes()) {
            let k = choose|k: int| 0 <= k < sb.len() && sb[k] == s.spec_bytes();
            assert(sb[k] != s.spec_bytes());
        }
    }
    seps.push(s);
    proof {
        assert(strs_bytes(seps@) =~= sb.push(s.spec_bytes()));
    }
}

/// Chunker settings.
pub struct ChunkerConfig {
    /// Target bytes per chunk.
    pub chunk_size: usize,
    /// Overlap bytes between consecutive chunks.
    pub overlap: usize,
    /// Primary separator (first tried before fallbacks).
    pub separator: String,
}

impl ChunkerConfig {
    /// The default settings: 1000-byte chunks, 200 bytes of overlap, split on
    /// blank lines first.
    pub fn new_default() -> (r: Self)
        ensures
            r.chunk_size == 1000,
            r.overlap == 200,
            r.separator@ == "\n\n"@,
    {
        ChunkerConfig { chunk_size: 1000, overlap: 200, separator: String::from_str("\n\n") }
    }
}

impl Default for ChunkerConfig {
    fn default() -> (r: Self)
        ensures
            r.chunk_size == 1000,
            r.overlap == 200,
            r.separator@ == "\n\n"@,
    {
        Self::new_default()
    }
}


/// A chunk of text ready for embedding.
#[derive(Debug)]
pub struct Chunk {
    pub id: String,
    pub content: String,
    pub metadata: ChunkMetadata,
}

/// Metadata attached to each chunk.
#[derive(Debug)]
pub struct ChunkMetadata {
    pub source_file: Option<String>,
    pub section_heading: Option<String>,
    pub start_line: usize,
    pub end_line: usize,
    pub chunk_index: usize,
    pub mime_type: String,
}

/// Number of lines `str::lines` yields: one per line feed, plus a final
/// unterminated line.
pub open spec fn line_count(t: Seq<u8>) -> int
    decreases t.len(),
{
    if t.len() == 0 {
        0
    } else if t.len() == 1 {
        1
    } else {
        line_count(t.drop_last()) + if t[t.len() - 2] == 10u8 {
            1int
        } else {
            0int
        }
    }
}

/// `text.lines().count()`.
pub fn count_lines(text: &str) -> (r: usize)
    ensures
        r == line_count(text.spec_bytes()),
{
    let b = text.as_bytes();
    let n = b.len();
    if n == 0 {
        return 0;
    }
    let mut count: usize = 1;
    let mut i: usize = 1;
    while i < n
        invariant
            b@ == text.spec_bytes(),
            n == b@.len(),
            1 <= i <= n,
            count == line_count(b@.take(i as int)),
            count <= i,
        decreases n - i,
    {
        proof {
            assert(b@.take(i + 1).drop_last() =~= b@.take(i as int));
            assert(b@.take(i + 1)[i - 1] == b@[i - 1]);
        }
        if b[i - 1] == 10u8 {
            count = count + 1;
        }
        i = i + 1;
    }
    proof {
        assert(b@.take(n as int) =~= b@);
    }
    count
}

/// Random identifier for a chunk: `uuid::Uuid::new_v4()` in its hyphenated
/// text form.  Nothing is claimed of it but that it has 36 characters.
#[verifier::external_body]
fn new_chunk_id() -> (r: String)
    ensures
        r@.len() == 36,
{
    uuid::Uuid::new_v4().to_string()
}

/// Nonblank chunks of one text.
pub open spec fn text_pieces(t: Seq<u8>, config: ChunkerConfig) -> Seq<Seq<u8>> {
    keep_nonblank(
        split_text_spec(
            t,
            bytes_of(config.separator@),
            config.chunk_size as int,
            config.overlap as int,
        ).unwrap(),
    )
}

/// The text can be split under the configuration (no byte-size cut is
/// stuck on a character wider than the chunk size).
pub open spec fn splittable(t: Seq<u8>, config: ChunkerConfig) -> bool {
    split_text_spec(
        t,
        bytes_of(config.separator@),
        config.chunk_size as int,
        config.overlap as int,
    ) is Some
}

/// Pieces of the first `n` sections, each with the index of its section.
pub open spec fn sections_plan(secs: Seq<Section>, n: int, config: ChunkerConfig) -> Seq<
    (Seq<u8>, int),
>
    decreases n,
{
    if n <= 0 {
        seq![]
    } else {
        sections_plan(secs, n - 1, config) + text_pieces(bytes_of(secs[n - 1].content@), config).map(
            |j: int, p: Seq<u8>| (p, n - 1),
        )
    }
}

/// The chunks of a document: per section when it has sections, else of its
/// whole content.
pub open spec fn document_plan(doc: ParsedDocument, config: ChunkerConfig) -> Seq<(Seq<u8>, int)> {
    if doc.sections@.len() > 0 {
        sections_plan(doc.sections@, doc.sections@.len() as int, config)
    } else {
        text_pieces(bytes_of(doc.content@), config).map(|j: int, p: Seq<u8>| (p, -1int))
    }
}

/// The `source_file` entry of the document metadata.
pub open spec fn source_of(doc: ParsedDocument) -> Option<Seq<char>> {
    if doc.metadata@.contains_key("source_file"@) {
        Some(doc.metadata@["source_file"@])
    } else {
        None
    }
}

/// Chunk `k` holds `content` and the metadata of the section it came from
/// (section `sec`, or the whole document when `sec` is negative).
pub open spec fn chunk_matches(
    c: Chunk,
    k: int,
    content: Seq<u8>,
    sec: int,
    doc: ParsedDocument,
) -> bool {
    &&& bytes_of(c.content@) == content
    &&& c.id@.len() == 36
    &&& c.metadata.chunk_index == k
    &&& opt_chars(c.metadata.source_file) == source_of(doc)
    &&& c.metadata.mime_type@ == doc.mime_type@
    &&& if sec >= 0 {
        &&& opt_chars(c.metadata.section_heading) == opt_chars(doc.sections@[sec].heading)
        &&& c.metadata.start_line == doc.sections@[sec].start_line
        &&& c.metadata.end_line == doc.sections@[sec].end_line
    } else {
        &&& opt_chars(c.metadata.section_heading) == opt_chars(doc.title)
        &&& c.metadata.start_line == 0
        &&& c.metadata.end_line == line_count(bytes_of(doc.content@))
    }
}

fn copy_opt(o: &Option<String>) -> (r: Option<String>)
    ensures
        opt_chars(r) == opt_chars(*o),
{
    match o {
        Some(s) => Some(s.clone()),
        None => None,
    }
}

/// Splits a [`ParsedDocument`] into [`Chunk`]s with the recursive
/// character splitter, numbering them in order.
pub fn chunk_document(doc: &ParsedDocument, config: &ChunkerConfig) -> (r: Vec<Chunk>)
    requires
        doc.sections@.len() > 0 ==> forall|i: int|
            0 <= i < doc.sections@.len() ==> splittable(
                bytes_of((#[trigger] doc.sections@[i]).content@),
                *config,
            ),
        doc.sections@.len() == 0 ==> splittable(bytes_of(doc.content@), *config),
    ensures
        r@.len() == document_plan(*doc, *config).len(),
        forall|k: int|
            0 <= k < r@.len() ==> chunk_matches(
                #[trigger] r@[k],
                k,
                document_plan(*doc, *config)[k].0,
                document_plan(*doc, *config)[k].1,
                *doc,
            ),
{
    let mut chunks: Vec<Chunk> = Vec::new();
    let mut idx: usize = 0;
    let source_key = "source_file";
    proof {
        reveal_strlit("source_file");
    }
    let source = copy_opt_ref(doc.metadata.get(source_key));
    if doc.sections.len() != 0 {
        let mut si: usize = 0;
        while si < doc.sections.len()
            invariant
                        doc.sections@.len() > 0,
                forall|i: int|
                    0 <= i < doc.sections@.len() ==> splittable(
                        bytes_of((#[trigger] doc.sections@[i]).content@),
                        *config,
                    ),
                opt_chars(source) == source_of(*doc),
                si <= doc.sections@.len(),
                idx == chunks@.len(),
                chunks@.len() == sections_plan(doc.sections@, si as int, *config).len(),
                forall|k: int|
                    0 <= k < chunks@.len() ==> chunk_matches(
                        #[trigger] chunks@[k],
                        k,
                        sections_plan(doc.sections@, si as int, *config)[k].0,
                        sections_plan(doc.sections@, si as int, *config)[k].1,
                        *doc,
                    ),
            decreases doc.sections@.len() - si,
        {
            let section = &doc.sections[si];
            let texts = split_text(section.content.as_str(), config);
            let ghost tb = strings_bytes(texts@);
            let ghost base = chunks@.len() as int;
            let ghost prev = sections_plan(doc.sections@, si as int, *config);
            let mut j: usize = 0;
            proof {
                assert(tb == split_text_spec(
                    bytes_of(section.content@),
                    bytes_of(config.separator@),
                    config.chunk_size as int,
                    config.overlap as int,
                ).unwrap());
            }
            while j < texts.len()
                invariant
                    tb == strings_bytes(texts@),
                    j <= texts@.len(),
                    si < doc.sections@.len(),
                    *section == doc.sections@[si as int],
                    opt_chars(source) == source_of(*doc),
                    idx == chunks@.len(),
                    base == prev.len(),
                    chunks@.len() == base + keep_nonblank(tb.take(j as int)).len(),
                    forall|k: int|
                        0 <= k < base ==> chunk_matches(
                            #[trigger] chunks@[k],
                            k,
                            prev[k].0,
                            prev[k].1,
                            *doc,
                        ),
                    forall|k: int|
                        base <= k < chunks@.len() ==> chunk_matches(
                            #[trigger] chunks@[k],
                            k,
                            keep_nonblank(tb.take(j as int))[k - base],
                            si as int,
                            *doc,
                        ),
                decreases texts@.len() - j,
            {
                let content = &texts[j];
                proof {
                    assert(tb.take(j + 1).drop_last() =~= tb.take(j as int));
                    assert(tb.take(j + 1).last() == bytes_of(content@));
                }
                if !is_blank(content.as_str()) {
                    let c = Chunk {
                        id: new_chunk_id(),
                        content: content.clone(),
                        metadata: ChunkMetadata {
                            source_file: copy_opt(&source),
                            section_heading: copy_opt(&section.heading),
                            start_line: section.start_line,
                            end_line: section.end_line,
                            chunk_index: idx,
                            mime_type: doc.mime_type.clone(),
                        },
                    };
                    chunks.push(c);
                    idx = chunks.len();
                }
                j = j + 1;
            }
            proof {
                assert(tb.take(texts@.len() as int) =~= tb);
                let cur = sections_plan(doc.sections@, si + 1, *config);
                let pieces = text_pieces(bytes_of(doc.sections@[si as int].content@), *config);
                assert(cur == prev + pieces.map(|j: int, p: Seq<u8>| (p, si as int)));
                assert forall|k: int| 0 <= k < chunks@.len() implies chunk_matches(
                    #[trigger] chunks@[k],
                    k,
                    cur[k].0,
                    cur[k].1,
                    *doc,
                ) by {
                    if k < base {
                        assert(cur[k] == prev[k]);
                    } else {
                        assert(cur[k] == (pieces[k - base], si as int));
                    }
                }
            }
            si = si + 1;
        }
    } else {
        let texts = split_text(doc.content.as_str(), config);
        let line_count = count_lines(doc.content.as_str());
        let ghost tb = strings_bytes(texts@);
        let mut j: usize = 0;
        while j < texts.len()
            invariant
                tb == strings_bytes(texts@),
                doc.sections@.len() == 0,
                line_count == crate::chunker::line_count(bytes_of(doc.content@)),
                j <= texts@.len(),
                opt_chars(source) == source_of(*doc),
                idx == chunks@.len(),
                chunks@.len() == keep_nonblank(tb.take(j as int)).len(),
                forall|k: int|
                    0 <= k < chunks@.len() ==> chunk_matches(
                        #[trigger] chunks@[k],
                        k,
                        keep_nonblank(tb.take(j as int))[k],
                        -1,
                        *doc,
                    ),
            decreases texts@.len() - j,
        {
            let content = &texts[j];
            proof {
                assert(tb.take(j + 1).drop_last() =~= tb.take(j as int));
                assert(tb.take(j + 1).last() == bytes_of(content@));
            }
            if !is_blank(content.as_str()) {
                let c = Chunk {
                    id: new_chunk_id(),
                    content: content.clone(),
                    metadata: ChunkMetadata {
                        source_file: copy_opt(&source),
                        section_heading: copy_opt(&doc.title),
                        start_line: 0,
                        end_line: line_count,
                        chunk_index: idx,
                        mime_type: doc.mime_type.clone(),
                    },
                };
                chunks.push(c);
                idx = chunks.len();
            }
            j = j + 1;
        }
        proof {
            assert(tb.take(texts@.len() as int) =~= tb);
        }
    }
    chunks
}

fn copy_opt_ref(o: Option<&String>) -> (r: Option<String>)
    ensures
        r matches Some(s) ==> o matches Some(t) && s@ == t@,
        r is None <==> o is None,
{
    match o {
        Some(s) => Some(s.clone()),
        None => None,
    }
}

/// Result of ingesting a single document.
#[derive(Debug)]
pub struct IngestResult {
    pub chunks_created: usize,
    pub document_title: Option<String>,
}

/// What ingesting a document gives once its chunks have been embedded: no
/// chunks, nothing stored; an embedder that returned another number of
/// vectors than chunks, an error naming both counts; else every chunk
/// stored.
pub open spec fn ingest_spec(title: Option<Seq<char>>, chunks: usize, embeddings: usize) -> Result<
    (usize, Option<Seq<char>>),
    Seq<char>,
> {
    if chunks == 0 {
        Ok((0usize, title))
    } else if embeddings != chunks {
        Err("embedding count "@ + crate::paths::decimal(embeddings as nat) + " != chunk count "@
            + crate::paths::decimal(chunks as nat))
    } else {
        Ok((chunks, title))
    }
}

/// Decides the result of ingesting a document from its title and the
/// numbers of chunks and of embedding vectors.
pub fn ingest_outcome(document_title: Option<String>, chunks: usize, embeddings: usize) -> (r:
    Result<IngestResult, String>)
    ensures
        match r {
            Ok(i) => ingest_spec(opt_chars(document_title), chunks, embeddings) == Ok::<
                (usize, Option<Seq<char>>),
                Seq<char>,
            >((i.chunks_created, opt_chars(i.document_title))),
            Err(m) => ingest_spec(opt_chars(document_title), chunks, embeddings) == Err::<
                (usize, Option<Seq<char>>),
                Seq<char>,
            >(m@),
        },
{
    proof {
        reveal_strlit("embedding count ");
        reveal_strlit(" != chunk count ");
    }
    if chunks == 0 {
        return Ok(IngestResult { chunks_created: 0, document_title });
    }
    if embeddings != chunks {
        let mut m = String::from_str("embedding count ");
        m.append(crate::paths::decimal_string(embeddings).as_str());
        m.append(" != chunk count ");
        m.append(crate::paths::decimal_string(chunks).as_str());
        return Err(m);
    }
    Ok(IngestResult { chunks_created: chunks, document_title })
}

} // verus!
