//! Memory injection for system prompts: choosing the fact lines that fit a
//! character budget and framing them as a block.
use vstd::prelude::*;
use vstd::string::*;
use crate::text::{bytes_of, is_ws, str_eq, owned, push_str};
use crate::document::strs_chars;
use crate::split::{join_chars, strings_chars, join_with};
use crate::paths::{lowercase, to_lowercase};
use crate::paths::{decimal, decimal_string};

verus! {

/// Maximum character budget for the injected memory block.
pub const MEMORY_BUDGET: usize = 2000;

/// Positions of `lens[k..]` that a greedy pass keeps when `used`
/// characters of `max` are spent: a line is kept when it still fits, and
/// the pass goes on after a line that does not.
pub open spec fn budget_from(lens: Seq<usize>, k: int, used: int, max: int) -> Seq<int>
    decreases lens.len() - k,
{
    if k < 0 || k >= lens.len() {
        seq![]
    } else if used + lens[k] <= max {
        seq![k] + budget_from(lens, k + 1, used + lens[k], max)
    } else {
        budget_from(lens, k + 1, used, max)
    }
}

/// Total length of the lines at the positions `idx`.
pub open spec fn kept_len(lens: Seq<usize>, idx: Seq<int>) -> int
    decreases idx.len(),
{
    if idx.len() == 0 {
        0
    } else {
        lens[idx[0]] + kept_len(lens, idx.drop_first())
    }
}

/// The block that frames `lines`: a header with their length in bytes and
/// the budget, the lines, and a closing rule.
pub open spec fn fact_block(lines: Seq<char>, max_chars: nat) -> Seq<char> {
    "---\n## Memory (your personal notes) ["@ + decimal(bytes_of(lines).len()) + " chars / "@
        + decimal(max_chars) + " chars]\n"@ + lines + "---"@
}

/// Positions as integers.
pub open spec fn as_ints(v: Seq<usize>) -> Seq<int> {
    v.map_values(|i: usize| i as int)
}

/// The words of `s`, as `str::split_whitespace` gives them: its maximal
/// runs of non-whitespace characters, in order.
pub open spec fn words(s: Seq<char>) -> Seq<Seq<char>>
    decreases s.len(),
{
    if s.len() == 0 {
        seq![]
    } else {
        let prev = words(s.drop_last());
        let c = s.last();
        if is_ws(c) {
            prev
        } else if s.len() >= 2 && !is_ws(s[s.len() - 2]) {
            prev.drop_last().push(prev.last().push(c))
        } else {
            prev.push(seq![c])
        }
    }
}

/// The words of `s`, each lowercased.
pub open spec fn lower_words(s: Seq<char>) -> Seq<Seq<char>> {
    words(s).map_values(|w: Seq<char>| lowercase(w))
}

/// The set of lowercased words of `s`.
pub open spec fn word_set(s: Seq<char>) -> Set<Seq<char>> {
    lower_words(s).to_set()
}

/// Two texts are near duplicates when more than four fifths of the words
/// either has are shared (a Jaccard overlap above 0.80), or when neither
/// has a word.
pub open spec fn near_duplicate_spec(a: Seq<char>, b: Seq<char>) -> bool {
    let i = word_set(a).intersect(word_set(b)).len();
    let u = word_set(a).union(word_set(b)).len();
    u == 0 || 5 * i > 4 * u
}

/// `s.split_whitespace()`: the words of `s`.
#[verifier::external_body]
fn split_words(s: &str) -> (r: Vec<&str>)
    ensures
        strs_chars(r@) == words(s@),
{
    s.split_whitespace().collect()
}

/// Whether `w` is one of `v`.
fn contains_word(v: &Vec<String>, w: &str) -> (r: bool)
    ensures
        r == strings_chars(v@).contains(w@),
{
    let mut i: usize = 0;
    while i < v.len()
        invariant
            i <= v@.len(),
            forall|k: int| 0 <= k < i ==> strings_chars(v@)[k] != w@,
        decreases v@.len() - i,
    {
        if str_eq(v[i].as_str(), w) {
            proof {
                assert(strings_chars(v@)[i as int] == w@);
            }
            return true;
        }
        i = i + 1;
    }
    false
}

/// The lowercased words of `s`, each once, in order of first appearance.
fn distinct_words(s: &str) -> (r: Vec<String>)
    ensures
        strings_chars(r@).no_duplicates(),
        strings_chars(r@).to_set() == word_set(s@),
{
    let all = split_words(s);
    let ghost ws = lower_words(s@);
    let mut out: Vec<String> = Vec::new();
    let mut i: usize = 0;
    proof {
        assert(strings_chars(out@) =~= Seq::<Seq<char>>::empty());
        assert(ws.take(0).to_set() =~= Set::<Seq<char>>::empty());
        assert(strings_chars(out@).to_set() =~= Set::<Seq<char>>::empty());
    }
    while i < all.len()
        invariant
            i <= all@.len(),
            strs_chars(all@) == words(s@),
            ws == lower_words(s@),
            ws.len() == all@.len(),
            strings_chars(out@).no_duplicates(),
            strings_chars(out@).to_set() == ws.take(i as int).to_set(),
        decreases all@.len() - i,
    {
        let w = to_lowercase(all[i]);
        let ghost before = strings_chars(out@);
        proof {
            assert(strs_chars(all@)[i as int] == all@[i as int]@);
            assert(ws[i as int] == w@);
            assert(ws.take(i + 1) =~= ws.take(i as int).push(w@));
            ws.take(i as int).lemma_push_to_set_commute(w@);
        }
        if !contains_word(&out, w.as_str()) {
            let ghost wv = w@;
            out.push(w);
            proof {
                assert(strings_chars(out@) =~= before.push(wv));
                before.lemma_push_to_set_commute(wv);
                assert forall|x: int, y: int| 0 <= x < y < strings_chars(out@).len() implies strings_chars(
                    out@,
                )[x] != strings_chars(out@)[y] by {
                    if y == before.len() {
                        assert(before.contains(before[x]));
                    }
                }
            }
        } else {
            proof {
                assert(before.to_set().contains(w@));
                assert(before.to_set().insert(w@) =~= before.to_set());
            }
        }
        i = i + 1;
    }
    proof {
        assert(ws.take(i as int) =~= ws);
    }
    out
}

/// How many words two texts share and how many either has.
pub fn word_overlap(a: &str, b: &str) -> (r: (usize, u128))
    ensures
        r.0 == word_set(a@).intersect(word_set(b@)).len(),
        r.1 == word_set(a@).union(word_set(b@)).len(),
        r.1 <= 2 * usize::MAX,
{
    let da = distinct_words(a);
    let db = distinct_words(b);
    let ghost sa = strings_chars(da@);
    let ghost setb = word_set(b@);
    let mut inter: usize = 0;
    let mut i: usize = 0;
    proof {
        assert(sa.take(0).to_set().intersect(setb) =~= Set::<Seq<char>>::empty());
    }
    while i < da.len()
        invariant
            i <= da@.len(),
            sa == strings_chars(da@),
            sa.no_duplicates(),
            setb == word_set(b@),
            setb == strings_chars(db@).to_set(),
            inter <= i,
            inter == sa.take(i as int).to_set().intersect(setb).len(),
        decreases da@.len() - i,
    {
        let w = da[i].as_str();
        let ghost pre = sa.take(i as int).to_set();
        proof {
            assert(sa.take(i + 1) =~= sa.take(i as int).push(w@));
            sa.take(i as int).lemma_push_to_set_commute(w@);
            assert(!pre.contains(w@)) by {
                if pre.contains(w@) {
                    let k = choose|k: int| 0 <= k < i && sa.take(i as int)[k] == w@;
                    assert(sa[k] == sa[i as int]);
                }
            }
            vstd::set_lib::lemma_len_intersect(pre, setb);
        }
        if contains_word(&db, w) {
            proof {
                assert(pre.insert(w@).intersect(setb) =~= pre.intersect(setb).insert(w@));
                assert(!pre.intersect(setb).contains(w@));
            }
            inter = inter + 1;
        } else {
            proof {
                assert(pre.insert(w@).intersect(setb) =~= pre.intersect(setb));
            }
        }
        i = i + 1;
    }
    proof {
        assert(sa.take(i as int) =~= sa);
        sa.unique_seq_to_set();
        strings_chars(db@).unique_seq_to_set();
        vstd::set_lib::lemma_set_intersect_union_lens(word_set(a@), setb);
    }
    let union = (da.len() as u128) + (db.len() as u128) - (inter as u128);
    (inter, union)
}

/// Whether two texts are near duplicates by their word overlap.
pub fn near_duplicate(a: &str, b: &str) -> (r: bool)
    ensures
        r == near_duplicate_spec(a@, b@),
{
    let (inter, union) = word_overlap(a, b);
    union == 0 || 5 * (inter as u128) > 4 * union
}

/// A fact as the memory block ranks and shows it: its content, a key that
/// orders facts as their confidence does (a larger key for a higher
/// confidence), and the length of its formatted line.
pub struct FactEntry {
    pub content: String,
    pub rank: u64,
    pub line_len: usize,
    /// The caller's handle for the fact, carried through unchanged.
    pub key: usize,
}

/// Abstract value of a fact entry.
pub struct FactView {
    pub content: Seq<char>,
    pub rank: u64,
    pub line_len: usize,
    pub key: usize,
}

/// The abstract value of a fact entry.
pub open spec fn fact_view(f: FactEntry) -> FactView {
    FactView { content: f.content@, rank: f.rank, line_len: f.line_len, key: f.key }
}

/// Abstract values of fact entries.
pub open spec fn facts_view(v: Seq<FactEntry>) -> Seq<FactView> {
    v.map_values(|f: FactEntry| fact_view(f))
}

/// Position of the first fact of `res[k..]` that `c` nearly duplicates.
pub open spec fn first_near(res: Seq<FactView>, c: Seq<char>, k: int) -> Option<int>
    decreases res.len() - k,
{
    if k < 0 || k >= res.len() {
        None
    } else if near_duplicate_spec(c, res[k].content) {
        Some(k)
    } else {
        first_near(res, c, k + 1)
    }
}

/// The facts of `s`, in order, each kept unless it nearly duplicates a
/// fact kept before it.
pub open spec fn keep_distinct(s: Seq<FactView>) -> Seq<FactView>
    decreases s.len(),
{
    if s.len() == 0 {
        seq![]
    } else {
        let k = keep_distinct(s.drop_last());
        if first_near(k, s.last().content, 0) is Some {
            k
        } else {
            k.push(s.last())
        }
    }
}

/// The facts kept when near duplicates are removed: by descending rank
/// (equal ranks in their given order), each fact that nearly duplicates a
/// fact already kept (one of at least its rank) is dropped.
pub open spec fn dedup_spec(facts: Seq<FactView>) -> Seq<FactView> {
    keep_distinct(sort_desc(facts))
}

/// Number of leading facts of `s` whose rank is at least `r`.
pub open spec fn place(s: Seq<FactView>, r: u64) -> int
    decreases s.len(),
{
    if s.len() == 0 {
        0
    } else if s[0].rank >= r {
        1 + place(s.drop_first(), r)
    } else {
        0
    }
}

/// The facts by descending rank, facts of equal rank in their given order.
pub open spec fn sort_desc(s: Seq<FactView>) -> Seq<FactView>
    decreases s.len(),
{
    if s.len() == 0 {
        seq![]
    } else {
        let t = sort_desc(s.drop_last());
        t.insert(place(t, s.last().rank), s.last())
    }
}

/// The line lengths of facts.
pub open spec fn line_lens(s: Seq<FactView>) -> Seq<usize> {
    s.map_values(|f: FactView| f.line_len)
}

/// The facts kept within `max` characters: by descending rank, each whose
/// line still fits.
pub open spec fn budget_spec(facts: Seq<FactView>, max: int) -> Seq<FactView> {
    let sorted = sort_desc(facts);
    budget_from(line_lens(sorted), 0, 0, max).map_values(|j: int| sorted[j])
}

/// The positions the greedy pass keeps lie in `k..` and ascend.
proof fn lemma_budget_from_ascending(lens: Seq<usize>, k: int, used: int, max: int)
    requires
        0 <= k,
    ensures
        forall|i: int|
            0 <= i < budget_from(lens, k, used, max).len() ==> k <= #[trigger] budget_from(
                lens,
                k,
                used,
                max,
            )[i] < lens.len(),
        forall|i: int, j: int|
            0 <= i < j < budget_from(lens, k, used, max).len() ==> budget_from(lens, k, used, max)[i]
                < budget_from(lens, k, used, max)[j],
    decreases lens.len() - k,
{
    if k < lens.len() {
        if used + lens[k] <= max {
            lemma_budget_from_ascending(lens, k + 1, used + lens[k], max);
            let rest = budget_from(lens, k + 1, used + lens[k], max);
            let all = budget_from(lens, k, used, max);
            assert(all == seq![k] + rest);
            assert forall|i: int| 0 <= i < all.len() implies k <= #[trigger] all[i] < lens.len() by {
                if i > 0 {
                    assert(all[i] == rest[i - 1]);
                }
            }
            assert forall|i: int, j: int| 0 <= i < j < all.len() implies all[i] < all[j] by {
                assert(all[j] == rest[j - 1]);
                if i > 0 {
                    assert(all[i] == rest[i - 1]);
                }
            }
        } else {
            lemma_budget_from_ascending(lens, k + 1, used, max);
            assert(budget_from(lens, k, used, max) == budget_from(lens, k + 1, used, max));
        }
    } else {
        assert(budget_from(lens, k, used, max).len() == 0);
    }
}

/// Position of the first kept fact that `c` nearly duplicates.
fn find_near(res: &Vec<FactEntry>, c: &str) -> (r: Option<usize>)
    ensures
        r is None <==> first_near(facts_view(res@), c@, 0) is None,
        r matches Some(j) ==> first_near(facts_view(res@), c@, 0) == Some(j as int) && j < res@.len(),
{
    let ghost rv = facts_view(res@);
    let mut j: usize = 0;
    while j < res.len()
        invariant
            j <= res@.len(),
            rv == facts_view(res@),
            first_near(rv, c@, 0) == first_near(rv, c@, j as int),
        decreases res@.len() - j,
    {
        if near_duplicate(c, res[j].content.as_str()) {
            return Some(j);
        }
        j = j + 1;
    }
    None
}

/// Where a fact of rank `r` goes in facts ordered by descending rank:
/// after every fact of rank at least `r`.
fn place_of(sorted: &Vec<FactEntry>, r: u64) -> (p: usize)
    ensures
        p == place(facts_view(sorted@), r),
{
    let ghost sv = facts_view(sorted@);
    let mut p: usize = 0;
    proof {
        assert(sv.subrange(0, sv.len() as int) =~= sv);
    }
    while p < sorted.len() && sorted[p].rank >= r
        invariant
            p <= sorted@.len(),
            sv == facts_view(sorted@),
            place(sv, r) == p + place(sv.subrange(p as int, sv.len() as int), r),
        decreases sorted@.len() - p,
    {
        proof {
            assert(sv.subrange(p as int, sv.len() as int).drop_first() =~= sv.subrange(
                p + 1,
                sv.len() as int,
            ));
        }
        p = p + 1;
    }
    proof {
        if p < sorted@.len() {
            assert(sv.subrange(p as int, sv.len() as int)[0] == sv[p as int]);
        }
    }
    p
}

/// The facts by descending rank, facts of equal rank in their given order.
fn sort_by_rank(facts: Vec<FactEntry>) -> (r: Vec<FactEntry>)
    ensures
        facts_view(r@) == sort_desc(facts_view(facts@)),
{
    let ghost input = facts_view(facts@);
    let mut rest = facts;
    let mut out: Vec<FactEntry> = Vec::new();
    let ghost mut done: int = 0;
    proof {
        assert(facts_view(out@) =~= sort_desc(input.take(0)));
        assert(facts_view(rest@) =~= input.subrange(0, input.len() as int));
    }
    while rest.len() > 0
        invariant
            0 <= done <= input.len(),
            facts_view(rest@) == input.subrange(done, input.len() as int),
            facts_view(out@) == sort_desc(input.take(done)),
        decreases rest@.len(),
    {
        let ghost pre = facts_view(out@);
        let ghost r0 = facts_view(rest@);
        proof {
            assert(r0.len() == rest@.len());
            assert(done < input.len());
        }
        let f = rest.remove(0);
        proof {
            assert(fact_view(f) == r0[0]);
            assert(input.take(done + 1).drop_last() =~= input.take(done));
            assert(input.take(done + 1).last() == input[done]);
            assert(facts_view(rest@) =~= r0.subrange(1, r0.len() as int));
            assert(r0.subrange(1, r0.len() as int) =~= input.subrange(done + 1, input.len() as int));
        }
        let p = place_of(&out, f.rank);
        proof {
            assert(p <= pre.len()) by {
                lemma_place_bound(pre, f.rank);
            }
        }
        out.insert(p, f);
        proof {
            assert(facts_view(out@) =~= pre.insert(p as int, input[done]));
            done = done + 1;
        }
    }
    proof {
        assert(input.take(done) =~= input);
    }
    out
}

/// The place of a rank lies within the list.
proof fn lemma_place_bound(s: Seq<FactView>, r: u64)
    ensures
        0 <= place(s, r) <= s.len(),
    decreases s.len(),
{
    if s.len() > 0 {
        lemma_place_bound(s.drop_first(), r);
    }
}

/// Enriches system prompts with working-memory facts.
pub struct PromptInjector;

impl PromptInjector {
    /// The positions of the lines (given by their lengths, best fact first)
    /// that are kept within `max_chars`: each line that still fits is
    /// kept, and a line that does not fit does not stop the pass.
    pub fn budget_lines(line_lens: &[usize], max_chars: usize) -> (r: Vec<usize>)
        ensures
            as_ints(r@) == budget_from(line_lens@, 0, 0, max_chars as int),
    {
        let mut used: usize = 0;
        let mut out: Vec<usize> = Vec::new();
        let mut k: usize = 0;
        proof {
            assert(as_ints(out@) =~= Seq::<int>::empty());
        }
        while k < line_lens.len()
            invariant
                k <= line_lens@.len(),
                used <= max_chars,
                budget_from(line_lens@, 0, 0, max_chars as int) == as_ints(out@) + budget_from(
                    line_lens@,
                    k as int,
                    used as int,
                    max_chars as int,
                ),
            decreases line_lens@.len() - k,
        {
            let len = line_lens[k];
            let ghost before = as_ints(out@);
            if len <= max_chars - used {
                out.push(k);
                used = used + len;
                proof {
                    assert(as_ints(out@) =~= before + seq![k as int]);
                    assert(before + (seq![k as int] + budget_from(
                        line_lens@,
                        k + 1,
                        used as int,
                        max_chars as int,
                    )) =~= as_ints(out@) + budget_from(
                        line_lens@,
                        k + 1,
                        used as int,
                        max_chars as int,
                    ));
                }
            }
            k = k + 1;
        }
        proof {
            assert(as_ints(out@) + budget_from(line_lens@, k as int, used as int, max_chars as int)
                =~= as_ints(out@));
        }
        out
    }

    /// Merges near duplicates (word overlap above four fifths): of two
    /// near-duplicate facts the one with the higher rank is kept, in the
    /// place of the first.
    pub fn deduplicate_facts(facts: Vec<FactEntry>) -> (r: Vec<FactEntry>)
        ensures
            facts_view(r@) == dedup_spec(facts_view(facts@)),
    {
        let sorted = sort_by_rank(facts);
        let ghost input = facts_view(sorted@);
        let mut rest = sorted;
        let mut result: Vec<FactEntry> = Vec::new();
        let ghost mut done: int = 0;
        proof {
            assert(facts_view(result@) =~= keep_distinct(input.take(0)));
            assert(facts_view(rest@) =~= input.subrange(0, input.len() as int));
        }
        while rest.len() > 0
            invariant
                0 <= done <= input.len(),
                facts_view(rest@) == input.subrange(done, input.len() as int),
                facts_view(result@) == keep_distinct(input.take(done)),
            decreases rest@.len(),
        {
            let ghost pre = facts_view(result@);
            let ghost r0 = facts_view(rest@);
            proof {
                assert(r0.len() == rest@.len());
                assert(done < input.len());
            }
            let fact = rest.remove(0);
            proof {
                assert(fact_view(fact) == r0[0]);
                assert(r0[0] == input[done]);
                assert(input.take(done + 1).drop_last() =~= input.take(done));
                assert(input.take(done + 1).last() == input[done]);
                assert(facts_view(rest@) =~= r0.subrange(1, r0.len() as int));
                assert(r0.subrange(1, r0.len() as int) =~= input.subrange(
                    done + 1,
                    input.len() as int,
                ));
            }
            match find_near(&result, fact.content.as_str()) {
                Some(_) => {},
                None => {
                    result.push(fact);
                    proof {
                        assert(facts_view(result@) =~= pre.push(input[done]));
                    }
                },
            }
            proof {
                done = done + 1;
            }
        }
        proof {
            assert(input.take(done) =~= input);
        }
        result
    }

    /// The facts that fit within `max_chars`: by descending rank (facts of
    /// equal rank in their given order), each whose line still fits; a
    /// line that does not fit does not stop the pass.
    pub fn budget_facts(facts: Vec<FactEntry>, max_chars: usize) -> (r: Vec<FactEntry>)
        ensures
            facts_view(r@) == budget_spec(facts_view(facts@), max_chars as int),
    {
        let sorted = sort_by_rank(facts);
        let ghost sv = facts_view(sorted@);
        proof {
            assert(sv.len() == sorted@.len());
        }
        let mut lens: Vec<usize> = Vec::new();
        let mut i: usize = 0;
        while i < sorted.len()
            invariant
                i <= sorted@.len(),
                sv == facts_view(sorted@),
                lens@ == line_lens(sv).take(i as int),
            decreases sorted@.len() - i,
        {
            lens.push(sorted[i].line_len);
            proof {
                assert(lens@ =~= line_lens(sv).take(i + 1));
            }
            i = i + 1;
        }
        proof {
            assert(lens@ =~= line_lens(sv));
        }
        let kept = Self::budget_lines(lens.as_slice(), max_chars);
        let ghost ki = budget_from(line_lens(sv), 0, 0, max_chars as int);
        proof {
            lemma_budget_from_ascending(line_lens(sv), 0, 0, max_chars as int);
            assert forall|t: int| 0 <= t < kept@.len() implies kept@[t] as int == ki[t] by {
                assert(as_ints(kept@)[t] == ki[t]);
            }
        }
        let mut rest = sorted;
        let mut out: Vec<FactEntry> = Vec::new();
        let mut k: usize = 0;
        let mut ptr: usize = 0;
        proof {
            assert(facts_view(rest@) =~= sv.subrange(0, sv.len() as int));
            assert(facts_view(out@) =~= ki.take(0).map_values(|j: int| sv[j]));
        }
        while rest.len() > 0
            invariant
                k <= sv.len(),
                sv.len() <= usize::MAX,
                facts_view(rest@) == sv.subrange(k as int, sv.len() as int),
                ptr <= kept@.len(),
                kept@.len() == ki.len(),
                forall|t: int| 0 <= t < kept@.len() ==> kept@[t] as int == ki[t],
                forall|t: int| 0 <= t < ki.len() ==> 0 <= #[trigger] ki[t] < sv.len(),
                forall|a: int, b: int| 0 <= a < b < ki.len() ==> ki[a] < ki[b],
                forall|t: int| 0 <= t < ptr ==> #[trigger] ki[t] < k,
                forall|t: int| ptr <= t < ki.len() ==> #[trigger] ki[t] >= k,
                facts_view(out@) == ki.take(ptr as int).map_values(|j: int| sv[j]),
            decreases rest@.len(),
        {
            let ghost r0 = facts_view(rest@);
            let ghost o0 = facts_view(out@);
            proof {
                assert(r0.len() == rest@.len());
                assert(k < sv.len());
            }
            let f = rest.remove(0);
            proof {
                assert(fact_view(f) == r0[0]);
                assert(r0[0] == sv[k as int]);
                assert(facts_view(rest@) =~= r0.subrange(1, r0.len() as int));
                assert(r0.subrange(1, r0.len() as int) =~= sv.subrange(k + 1, sv.len() as int));
            }
            if ptr < kept.len() && kept[ptr] == k {
                proof {
                    assert(ki[ptr as int] == k);
                }
                out.push(f);
                proof {
                    assert(facts_view(out@) =~= o0.push(sv[k as int]));
                    assert(ki.take(ptr + 1) =~= ki.take(ptr as int).push(k as int));
                    assert(ki.take(ptr + 1).map_values(|j: int| sv[j]) =~= ki.take(ptr as int).map_values(
                        |j: int| sv[j],
                    ).push(sv[k as int]));
                    assert(facts_view(out@) =~= ki.take(ptr + 1).map_values(|j: int| sv[j]));
                    assert forall|t: int| ptr + 1 <= t < ki.len() implies #[trigger] ki[t] >= k + 1 by {
                        assert(ki[ptr as int] < ki[t]);
                    }
                }
                ptr = ptr + 1;
            } else {
                proof {
                    assert forall|t: int| ptr <= t < ki.len() implies #[trigger] ki[t] >= k + 1 by {
                        if t > ptr {
                            assert(ki[ptr as int] < ki[t]);
                        }
                    }
                }
            }
            k = k + 1;
        }
        proof {
            if ptr < ki.len() {
                assert(ki[ptr as int] >= k);
                assert(ki[ptr as int] < sv.len());
            }
            assert(ki.take(ptr as int) =~= ki);
        }
        out
    }

    /// Frames the formatted fact lines as a Markdown block whose header
    /// shows their length in bytes against `max_chars`.
    pub fn format_fact_block(lines: &Vec<String>, max_chars: usize) -> (r: String)
        ensures
            r@ == fact_block(join_chars(strings_chars(lines@), seq![]), max_chars as nat),
    {
        proof {
            reveal_strlit("");
            reveal_strlit("---\n## Memory (your personal notes) [");
            reveal_strlit(" chars / ");
            reveal_strlit(" chars]\n");
            reveal_strlit("---");
        }
        let body = join_with(lines, "");
        proof {
            assert(""@ =~= Seq::<char>::empty());
        }
        let n = body.as_str().as_bytes().len();
        let mut out = String::from_str("---\n## Memory (your personal notes) [");
        let count = decimal_string(n);
        out.append(count.as_str());
        out.append(" chars / ");
        let budget = decimal_string(max_chars);
        out.append(budget.as_str());
        out.append(" chars]\n");
        out.append(body.as_str());
        out.append("---");
        proof {
            assert(out@ =~= fact_block(body@, max_chars as nat));
        }
        out
    }

    /// `system_prompt` followed by a blank line and the memory block of the
    /// facts that survive merging and the budget, each shown by its line
    /// `lines[key]` (nothing where there is no such line); the prompt
    /// unchanged when there is no fact or none fits.
    pub fn inject_memory(system_prompt: &str, facts: Vec<FactEntry>, lines: &Vec<String>) -> (r:
        String)
        ensures
            r@ == inject_spec(system_prompt@, facts_view(facts@), strings_chars(lines@)),
    {
        if facts.len() == 0 {
            return owned(system_prompt);
        }
        let ghost fv = facts_view(facts@);
        let deduped = Self::deduplicate_facts(facts);
        let budgeted = Self::budget_facts(deduped, MEMORY_BUDGET);
        if budgeted.len() == 0 {
            proof {
                assert(facts_view(budgeted@).len() == 0);
            }
            return owned(system_prompt);
        }
        let ghost kept = facts_view(budgeted@);
        let ghost ls = strings_chars(lines@);
        let mut shown: Vec<String> = Vec::new();
        let mut i: usize = 0;
        while i < budgeted.len()
            invariant
                i <= budgeted@.len(),
                shown@.len() == i,
                kept == facts_view(budgeted@),
                ls == strings_chars(lines@),
                strings_chars(shown@) == kept.take(i as int).map_values(
                    |f: FactView| line_at(ls, f.key),
                ),
            decreases budgeted@.len() - i,
        {
            let k = budgeted[i].key;
            let ghost before = shown@;
            proof {
                assert(kept[i as int].key == k);
            }
            if k < lines.len() {
                shown.push(owned(lines[k].as_str()));
                proof {
                    assert(ls[k as int] == lines@[k as int]@);
                    assert(shown@[i as int]@ == line_at(ls, k));
                }
            } else {
                shown.push(String::new());
                proof {
                    assert(shown@[i as int]@ == line_at(ls, k));
                }
            }
            proof {
                assert(shown@ == before.push(shown@[i as int]));
                assert forall|j: int| 0 <= j < i implies #[trigger] strings_chars(shown@)[j] == line_at(
                    ls,
                    kept[j].key,
                ) by {
                    assert(strings_chars(before)[j] == kept.take(i as int).map_values(
                        |f: FactView| line_at(ls, f.key),
                    )[j]);
                }
                assert(strings_chars(shown@) =~= kept.take(i + 1).map_values(
                    |f: FactView| line_at(ls, f.key),
                ));
            }
            i = i + 1;
        }
        let block = Self::format_fact_block(&shown, MEMORY_BUDGET);
        let mut out = owned(system_prompt);
        proof {
            reveal_strlit("\n\n");
            assert(kept.take(kept.len() as int) =~= kept);
        }
        push_str(&mut out, "\n\n");
        push_str(&mut out, block.as_str());
        out
    }
}

/// The line shown for a fact: `lines[key]`, or nothing when there is no
/// such line.
pub open spec fn line_at(lines: Seq<Seq<char>>, key: usize) -> Seq<char> {
    if key < lines.len() {
        lines[key as int]
    } else {
        seq![]
    }
}

/// A system prompt with its memory block: the facts that survive merging
/// and the budget, shown by their lines, after a blank line; the prompt
/// alone when there is no fact or none fits.
pub open spec fn inject_spec(prompt: Seq<char>, facts: Seq<FactView>, lines: Seq<Seq<char>>) -> Seq<
    char,
> {
    let kept = budget_spec(dedup_spec(facts), MEMORY_BUDGET as int);
    if facts.len() == 0 || kept.len() == 0 {
        prompt
    } else {
        prompt + "\n\n"@ + fact_block(
            join_chars(kept.map_values(|f: FactView| line_at(lines, f.key)), seq![]),
            MEMORY_BUDGET as nat,
        )
    }
}

/// Removing near duplicates only removes facts: no more facts come out
/// than went in, and each is one of them.
pub proof fn law_dedup_only_removes(facts: Seq<FactView>)
    ensures
        dedup_spec(facts).len() <= facts.len(),
        forall|i: int| 0 <= i < dedup_spec(facts).len() ==> facts.contains(#[trigger] dedup_spec(facts)[i]),
{
    lemma_sort_desc_members(facts);
    lemma_keep_distinct_members(sort_desc(facts));
    let k = dedup_spec(facts);
    assert forall|i: int| 0 <= i < k.len() implies facts.contains(#[trigger] k[i]) by {
        assert(sort_desc(facts).contains(k[i]));
    }
}

/// After near duplicates are removed, no two kept facts are near
/// duplicates of each other.
pub proof fn law_dedup_no_near_duplicates(facts: Seq<FactView>)
    ensures
        forall|i: int, j: int|
            0 <= i < dedup_spec(facts).len() && 0 <= j < dedup_spec(facts).len() && i != j
                ==> !near_duplicate_spec(dedup_spec(facts)[i].content, dedup_spec(facts)[j].content),
{
    lemma_keep_distinct_apart(sort_desc(facts));
    let k = dedup_spec(facts);
    assert forall|i: int, j: int| 0 <= i < k.len() && 0 <= j < k.len() && i != j implies !near_duplicate_spec(
        k[i].content,
        k[j].content,
    ) by {
        if i < j {
            lemma_near_symmetric(k[i].content, k[j].content);
        }
    }
}

/// Being near duplicates does not depend on the order of the two texts.
pub proof fn lemma_near_symmetric(a: Seq<char>, b: Seq<char>)
    ensures
        near_duplicate_spec(a, b) == near_duplicate_spec(b, a),
{
    assert(word_set(a).intersect(word_set(b)) =~= word_set(b).intersect(word_set(a)));
    assert(word_set(a).union(word_set(b)) =~= word_set(b).union(word_set(a)));
}

/// A kept fact is no near duplicate of any fact kept before it.
proof fn lemma_keep_distinct_apart(s: Seq<FactView>)
    ensures
        forall|i: int, j: int|
            0 <= i < j < keep_distinct(s).len() ==> !near_duplicate_spec(
                keep_distinct(s)[j].content,
                keep_distinct(s)[i].content,
            ),
    decreases s.len(),
{
    if s.len() > 0 {
        lemma_keep_distinct_apart(s.drop_last());
        let k = keep_distinct(s.drop_last());
        if first_near(k, s.last().content, 0) is None {
            lemma_first_near_none(k, s.last().content, 0);
            let k2 = k.push(s.last());
            assert forall|i: int, j: int| 0 <= i < j < k2.len() implies !near_duplicate_spec(
                k2[j].content,
                k2[i].content,
            ) by {
                if j == k.len() {
                    assert(!near_duplicate_spec(s.last().content, k[i].content));
                } else {
                    assert(k2[j] == k[j] && k2[i] == k[i]);
                }
            }
        }
    }
}

/// No near duplicate found from `k` on means none lies there.
proof fn lemma_first_near_none(res: Seq<FactView>, c: Seq<char>, k: int)
    requires
        0 <= k,
        first_near(res, c, k) is None,
    ensures
        forall|i: int| k <= i < res.len() ==> !near_duplicate_spec(c, #[trigger] res[i].content),
    decreases res.len() - k,
{
    if k < res.len() {
        lemma_first_near_none(res, c, k + 1);
    }
}

/// The kept facts are facts of `s`, no more of them.
proof fn lemma_keep_distinct_members(s: Seq<FactView>)
    ensures
        keep_distinct(s).len() <= s.len(),
        forall|i: int| 0 <= i < keep_distinct(s).len() ==> s.contains(#[trigger] keep_distinct(s)[i]),
    decreases s.len(),
{
    if s.len() > 0 {
        let prev = s.drop_last();
        lemma_keep_distinct_members(prev);
        let k = keep_distinct(s);
        assert forall|i: int| 0 <= i < k.len() implies s.contains(#[trigger] k[i]) by {
            if i < keep_distinct(prev).len() {
                assert(k[i] == keep_distinct(prev)[i]);
                let m = choose|m: int| 0 <= m < prev.len() && prev[m] == k[i];
                assert(s[m] == k[i]);
            } else {
                assert(k[i] == s.last());
                assert(s[s.len() - 1] == k[i]);
            }
        }
    }
}

/// Sorting keeps the facts: as many, each one of the given.
proof fn lemma_sort_desc_members(s: Seq<FactView>)
    ensures
        sort_desc(s).len() == s.len(),
        forall|i: int| 0 <= i < sort_desc(s).len() ==> s.contains(#[trigger] sort_desc(s)[i]),
    decreases s.len(),
{
    if s.len() > 0 {
        let prev = s.drop_last();
        lemma_sort_desc_members(prev);
        let t = sort_desc(prev);
        let p = place(t, s.last().rank);
        lemma_place_bound(t, s.last().rank);
        let u = sort_desc(s);
        assert(u == t.insert(p, s.last()));
        assert forall|i: int| 0 <= i < u.len() implies s.contains(#[trigger] u[i]) by {
            if i == p {
                assert(s[s.len() - 1] == u[i]);
            } else {
                let x = if i < p { t[i] } else { t[i - 1] };
                assert(u[i] == x);
                assert(t.contains(x));
                let m = choose|m: int| 0 <= m < prev.len() && prev[m] == x;
                assert(s[m] == x);
            }
        }
    }
}

/// Of two near duplicates the one of higher rank is kept: every fact is
/// kept, or a kept fact of at least its rank nearly duplicates it.
pub proof fn law_dedup_keeps_higher(facts: Seq<FactView>, f: FactView)
    requires
        facts.contains(f),
    ensures
        dedup_spec(facts).contains(f) || exists|j: int|
            0 <= j < dedup_spec(facts).len() && near_duplicate_spec(f.content, #[trigger] dedup_spec(facts)[j].content)
                && dedup_spec(facts)[j].rank >= f.rank,
{
    let s = sort_desc(facts);
    lemma_sort_desc_sorted(facts);
    lemma_sort_desc_has(facts, f);
    let m = choose|m: int| 0 <= m < s.len() && s[m] == f;
    lemma_keep_distinct_covers(s, m);
}

/// In a list by descending rank, each fact is kept or nearly duplicates a
/// kept fact of at least its rank.
proof fn lemma_keep_distinct_covers(s: Seq<FactView>, m: int)
    requires
        0 <= m < s.len(),
        forall|a: int, b: int| 0 <= a < b < s.len() ==> s[a].rank >= s[b].rank,
    ensures
        keep_distinct(s).contains(s[m]) || exists|j: int|
            0 <= j < keep_distinct(s).len() && near_duplicate_spec(s[m].content, #[trigger] keep_distinct(s)[j].content)
                && keep_distinct(s)[j].rank >= s[m].rank,
    decreases s.len(),
{
    let prev = s.drop_last();
    let k = keep_distinct(prev);
    let k2 = keep_distinct(s);
    assert(forall|i: int| 0 <= i < k.len() ==> k2[i] == k[i]);
    assert(k.len() <= k2.len());
    if m < s.len() - 1 {
        lemma_keep_distinct_covers(prev, m);
        assert(prev[m] == s[m]);
        if k.contains(s[m]) {
            let i = choose|i: int| 0 <= i < k.len() && k[i] == s[m];
            assert(k2[i] == s[m]);
        } else {
            let j = choose|j: int|
                0 <= j < k.len() && near_duplicate_spec(s[m].content, #[trigger] k[j].content) && k[j].rank
                    >= s[m].rank;
            assert(k2[j] == k[j]);
        }
    } else {
        match first_near(k, s.last().content, 0) {
            None => {
                assert(k2[k.len() as int] == s[m]);
            },
            Some(j) => {
                lemma_first_near_range(k, s.last().content, 0);
                lemma_first_near_found(k, s.last().content, 0);
                lemma_keep_distinct_members(prev);
                assert(prev.contains(k[j]));
                let a = choose|a: int| 0 <= a < prev.len() && prev[a] == k[j];
                assert(s[a] == k[j]);
                assert(k2[j] == k[j]);
            },
        }
    }
}

/// A found near duplicate is one.
proof fn lemma_first_near_found(res: Seq<FactView>, c: Seq<char>, k: int)
    requires
        0 <= k,
    ensures
        first_near(res, c, k) matches Some(j) ==> near_duplicate_spec(c, res[j].content),
    decreases res.len() - k,
{
    if k < res.len() && !near_duplicate_spec(c, res[k].content) {
        lemma_first_near_found(res, c, k + 1);
    }
}

/// A fact of `s` is in its sorted order.
proof fn lemma_sort_desc_has(s: Seq<FactView>, f: FactView)
    requires
        s.contains(f),
    ensures
        sort_desc(s).contains(f),
    decreases s.len(),
{
    let prev = s.drop_last();
    let t = sort_desc(prev);
    let p = place(t, s.last().rank);
    lemma_place_bound(t, s.last().rank);
    let u = sort_desc(s);
    assert(u == t.insert(p, s.last()));
    if f == s.last() {
        assert(u[p] == f);
    } else {
        let m = choose|m: int| 0 <= m < s.len() && s[m] == f;
        assert(m < s.len() - 1);
        assert(prev[m] == f);
        lemma_sort_desc_has(prev, f);
        let i = choose|i: int| 0 <= i < t.len() && t[i] == f;
        if i < p {
            assert(u[i] == f);
        } else {
            assert(u[i + 1] == f);
        }
    }
}

/// The sorted order descends in rank.
proof fn lemma_sort_desc_sorted(s: Seq<FactView>)
    ensures
        forall|a: int, b: int| 0 <= a < b < sort_desc(s).len() ==> sort_desc(s)[a].rank >= sort_desc(s)[b].rank,
    decreases s.len(),
{
    lemma_sort_desc_members(s);
    if s.len() > 0 {
        let prev = s.drop_last();
        lemma_sort_desc_sorted(prev);
        lemma_sort_desc_members(prev);
        let t = sort_desc(prev);
        let r = s.last().rank;
        let p = place(t, r);
        lemma_place_props(t, r);
        lemma_place_bound(t, r);
        let u = sort_desc(s);
        assert(u == t.insert(p, s.last()));
        assert forall|a: int, b: int| 0 <= a < b < u.len() implies u[a].rank >= u[b].rank by {
            if b < p {
                assert(u[a] == t[a] && u[b] == t[b]);
            } else if b == p {
                assert(u[a] == t[a]);
            } else if a < p {
                assert(u[a] == t[a] && u[b] == t[b - 1]);
            } else if a == p {
                assert(u[b] == t[b - 1]);
                assert(t[p].rank < r);
                assert(t[p].rank >= t[b - 1].rank || b - 1 == p);
            } else {
                assert(u[a] == t[a - 1] && u[b] == t[b - 1]);
            }
        }
    }
}

/// The facts before the place of a rank have at least that rank; the one
/// at it has less.
proof fn lemma_place_props(s: Seq<FactView>, r: u64)
    ensures
        forall|i: int| 0 <= i < place(s, r) ==> s[i].rank >= r,
        place(s, r) < s.len() ==> s[place(s, r)].rank < r,
    decreases s.len(),
{
    lemma_place_bound(s, r);
    if s.len() > 0 && s[0].rank >= r {
        lemma_place_props(s.drop_first(), r);
        lemma_place_bound(s.drop_first(), r);
        assert forall|i: int| 0 <= i < place(s, r) implies s[i].rank >= r by {
            if i > 0 {
                assert(s[i] == s.drop_first()[i - 1]);
            }
        }
    }
}

/// A found near duplicate lies within the list.
proof fn lemma_first_near_range(res: Seq<FactView>, c: Seq<char>, k: int)
    requires
        0 <= k,
    ensures
        first_near(res, c, k) matches Some(j) ==> k <= j < res.len(),
    decreases res.len() - k,
{
    if k < res.len() && !near_duplicate_spec(c, res[k].content) {
        lemma_first_near_range(res, c, k + 1);
    }
}

/// Total line length of facts.
pub open spec fn total_line_len(s: Seq<FactView>) -> int
    decreases s.len(),
{
    if s.len() == 0 {
        0
    } else {
        s[0].line_len + total_line_len(s.drop_first())
    }
}

/// The facts the budget keeps never exceed it together.
pub proof fn law_budget_fits(facts: Seq<FactView>, max: int)
    requires
        0 <= max,
    ensures
        total_line_len(budget_spec(facts, max)) <= max,
{
    let sorted = sort_desc(facts);
    let idx = budget_from(line_lens(sorted), 0, 0, max);
    lemma_budget_from_fits(line_lens(sorted), 0, 0, max);
    lemma_budget_from_ascending(line_lens(sorted), 0, 0, max);
    lemma_total_of_picked(sorted, idx);
}

/// The total line length of picked facts is the kept length of their
/// positions.
proof fn lemma_total_of_picked(s: Seq<FactView>, idx: Seq<int>)
    requires
        forall|i: int| 0 <= i < idx.len() ==> 0 <= #[trigger] idx[i] < s.len(),
    ensures
        total_line_len(idx.map_values(|j: int| s[j])) == kept_len(line_lens(s), idx),
    decreases idx.len(),
{
    if idx.len() > 0 {
        lemma_total_of_picked(s, idx.drop_first());
        assert(idx.map_values(|j: int| s[j]).drop_first() =~= idx.drop_first().map_values(
            |j: int| s[j],
        ));
    }
}

/// From position `k` with `used` spent, the kept lines add at most
/// `max - used`.
proof fn lemma_budget_from_fits(lens: Seq<usize>, k: int, used: int, max: int)
    requires
        0 <= k,
        0 <= used <= max,
    ensures
        used + kept_len(lens, budget_from(lens, k, used, max)) <= max,
    decreases lens.len() - k,
{
    if k < lens.len() {
        if used + lens[k] <= max {
            lemma_budget_from_fits(lens, k + 1, used + lens[k], max);
            let rest = budget_from(lens, k + 1, used + lens[k], max);
            assert((seq![k] + rest).drop_first() =~= rest);
        } else {
            lemma_budget_from_fits(lens, k + 1, used, max);
        }
    }
}

} // verus!
