//! Token usage totals, overall and per model.
use vstd::prelude::*;
use vstd::string::*;
use crate::text::str_eq;

verus! {

/// Usage of one model.
#[derive(Debug, Clone, Copy, PartialEq, Eq, Structural)]
pub struct ModelUsage {
    pub total_tokens: i64,
    pub prompt_tokens: i64,
    pub completion_tokens: i64,
    pub call_count: i64,
}

impl Default for ModelUsage {
    fn default() -> (r: Self)
        ensures
            r == (ModelUsage { total_tokens: 0, prompt_tokens: 0, completion_tokens: 0, call_count: 0 }),
    {
        ModelUsage { total_tokens: 0, prompt_tokens: 0, completion_tokens: 0, call_count: 0 }
    }
}

/// Usage totals, with a breakdown by model (each model once).
#[derive(Debug, Clone)]
pub struct TokenUsageSummary {
    pub total_tokens: i64,
    pub total_prompt: i64,
    pub total_completion: i64,
    pub by_model: Vec<(String, ModelUsage)>,
}

/// Token usage of one day.
#[derive(Debug, Clone)]
pub struct DailyUsage {
    pub date: String,
    pub total_tokens: i64,
    pub prompt_tokens: i64,
    pub completion_tokens: i64,
}

/// One aggregated row of recorded usage: a model with its prompt,
/// completion and total token sums and its number of calls.
#[derive(Debug, Clone)]
pub struct UsageRow {
    pub model: String,
    pub prompt: i64,
    pub completion: i64,
    pub total: i64,
    pub count: i64,
}

/// Field `f` of a row: prompt (0), completion (1), total (2), count (3).
pub open spec fn field(r: UsageRow, f: int) -> int {
    if f == 0 {
        r.prompt as int
    } else if f == 1 {
        r.completion as int
    } else if f == 2 {
        r.total as int
    } else {
        r.count as int
    }
}

/// Sum of field `f` over the first `k` rows.
pub open spec fn field_sum(rows: Seq<UsageRow>, k: int, f: int) -> int
    decreases k,
{
    if k <= 0 || k > rows.len() {
        0
    } else {
        field_sum(rows, k - 1, f) + field(rows[k - 1], f)
    }
}

/// Sum of field `f` over the first `k` rows of model `m`.
pub open spec fn model_sum(rows: Seq<UsageRow>, k: int, f: int, m: Seq<char>) -> int
    decreases k,
{
    if k <= 0 || k > rows.len() {
        0
    } else {
        model_sum(rows, k - 1, f, m) + if rows[k - 1].model@ == m {
            field(rows[k - 1], f)
        } else {
            0
        }
    }
}

/// Within the range of `i64`.
pub open spec fn in_i64(x: int) -> bool {
    i64::MIN <= x <= i64::MAX
}

/// Every running sum the summary keeps stays within `i64`: the overall
/// prompt, completion and total sums, and every per-model sum.
pub open spec fn usage_fits(rows: Seq<UsageRow>) -> bool {
    &&& forall|k: int, f: int|
        0 <= k <= rows.len() && 0 <= f < 3 ==> in_i64(#[trigger] field_sum(rows, k, f))
    &&& forall|k: int, f: int, i: int|
        0 <= k <= rows.len() && 0 <= f < 4 && 0 <= i < rows.len() ==> in_i64(
            #[trigger] model_sum(rows, k, f, rows[i].model@),
        )
}

/// Some row is of model `m`.
pub open spec fn has_model(rows: Seq<UsageRow>, k: int, m: Seq<char>) -> bool {
    exists|i: int| 0 <= i < k && (#[trigger] rows[i]).model@ == m
}

/// The usage of model `m` over the first `k` rows.
pub open spec fn model_usage_of(rows: Seq<UsageRow>, k: int, m: Seq<char>) -> ModelUsage {
    ModelUsage {
        total_tokens: model_sum(rows, k, 2, m) as i64,
        prompt_tokens: model_sum(rows, k, 0, m) as i64,
        completion_tokens: model_sum(rows, k, 1, m) as i64,
        call_count: model_sum(rows, k, 3, m) as i64,
    }
}

/// The per-model list has each model once, exactly the models of the first
/// `k` rows, each with its sums.
pub open spec fn breakdown_ok(v: Seq<(String, ModelUsage)>, rows: Seq<UsageRow>, k: int) -> bool {
    &&& forall|a: int, b: int| 0 <= a < b < v.len() ==> (#[trigger] v[a]).0@ != (#[trigger] v[b]).0@
    &&& forall|a: int| 0 <= a < v.len() ==> has_model(rows, k, (#[trigger] v[a]).0@)
    &&& forall|a: int| 0 <= a < v.len() ==> (#[trigger] v[a]).1 == model_usage_of(rows, k, v[a].0@)
    &&& forall|i: int|
        0 <= i < k ==> exists|a: int| 0 <= a < v.len() && (#[trigger] v[a]).0@ == (
        #[trigger] rows[i]).model@
}

proof fn lemma_model_sum_absent(rows: Seq<UsageRow>, k: int, f: int, m: Seq<char>)
    requires
        0 <= k <= rows.len(),
        !has_model(rows, k, m),
    ensures
        model_sum(rows, k, f, m) == 0,
    decreases k,
{
    if k > 0 {
        assert(!has_model(rows, k - 1, m)) by {
            if has_model(rows, k - 1, m) {
                let i = choose|i: int| 0 <= i < k - 1 && (#[trigger] rows[i]).model@ == m;
                assert(0 <= i < k && rows[i].model@ == m);
            }
        }
        lemma_model_sum_absent(rows, k - 1, f, m);
        assert(rows[k - 1].model@ != m) by {
            if rows[k - 1].model@ == m {
                assert(has_model(rows, k, m));
            }
        }
    }
}

/// Totals over the rows: overall prompt, completion and total tokens, and
/// per model the four sums.
pub fn summarize_usage(rows: &Vec<UsageRow>) -> (r: TokenUsageSummary)
    requires
        usage_fits(rows@),
    ensures
        r.total_tokens == field_sum(rows@, rows@.len() as int, 2),
        r.total_prompt == field_sum(rows@, rows@.len() as int, 0),
        r.total_completion == field_sum(rows@, rows@.len() as int, 1),
        breakdown_ok(r.by_model@, rows@, rows@.len() as int),
{
    let ghost rs = rows@;
    let mut total: i64 = 0;
    let mut prompt: i64 = 0;
    let mut completion: i64 = 0;
    let mut by_model: Vec<(String, ModelUsage)> = Vec::new();
    let mut k: usize = 0;
    while k < rows.len()
        invariant
            rs == rows@,
            usage_fits(rs),
            k <= rs.len(),
            total == field_sum(rs, k as int, 2),
            prompt == field_sum(rs, k as int, 0),
            completion == field_sum(rs, k as int, 1),
            breakdown_ok(by_model@, rs, k as int),
        decreases rs.len() - k,
    {
        let row = &rows[k];
        proof {
            assert(in_i64(field_sum(rs, k + 1, 0)));
            assert(in_i64(field_sum(rs, k + 1, 1)));
            assert(in_i64(field_sum(rs, k + 1, 2)));
        }
        total = total + row.total;
        prompt = prompt + row.prompt;
        completion = completion + row.completion;
        let ghost m = row.model@;
        let ghost old_v = by_model@;
        // find the model's entry
        let mut j: usize = 0;
        let mut at: Option<usize> = None;
        while j < by_model.len() && at.is_none()
            invariant
                old_v == by_model@,
                m == row.model@,
                j <= old_v.len(),
                at matches Some(a) ==> a < old_v.len() && old_v[a as int].0@ == m,
                at is None ==> forall|b: int| 0 <= b < j ==> (#[trigger] old_v[b]).0@ != m,
            decreases old_v.len() - j + if at is None {
                1int
            } else {
                0int
            },
        {
            if str_eq(by_model[j].0.as_str(), row.model.as_str()) {
                at = Some(j);
            } else {
                j = j + 1;
            }
        }
        proof {
            assert forall|f: int| 0 <= f < 4 implies in_i64(#[trigger] model_sum(rs, k + 1, f, m)) by {
                assert(in_i64(model_sum(rs, k + 1, f, rs[k as int].model@)));
            }
        }
        match at {
            Some(a) => {
                let u = by_model[a].1;
                proof {
                    assert(u == model_usage_of(rs, k as int, m));
                    assert(in_i64(model_sum(rs, k + 1, 0, m)));
                    assert(in_i64(model_sum(rs, k + 1, 1, m)));
                    assert(in_i64(model_sum(rs, k + 1, 2, m)));
                    assert(in_i64(model_sum(rs, k + 1, 3, m)));
                }
                let nu = ModelUsage {
                    total_tokens: u.total_tokens + row.total,
                    prompt_tokens: u.prompt_tokens + row.prompt,
                    completion_tokens: u.completion_tokens + row.completion,
                    call_count: u.call_count + row.count,
                };
                let name = by_model[a].0.clone();
                by_model.set(a, (name, nu));
                proof {
                    let v = by_model@;
                    assert forall|b: int| 0 <= b < v.len() implies (#[trigger] v[b]).1
                        == model_usage_of(rs, k + 1, v[b].0@) by {
                        if b != a {
                            assert(old_v[b].0@ != m);
                            assert(v[b] == old_v[b]);
                        }
                    }
                    assert forall|b: int| 0 <= b < v.len() implies has_model(
                        rs,
                        k + 1,
                        (#[trigger] v[b]).0@,
                    ) by {
                        assert(has_model(rs, k as int, old_v[b].0@));
                        let i = choose|i: int|
                            0 <= i < k && (#[trigger] rs[i]).model@ == old_v[b].0@;
                        assert(0 <= i < k + 1 && rs[i].model@ == v[b].0@);
                    }
                    assert forall|i: int| 0 <= i < k + 1 implies exists|b: int|
                        0 <= b < v.len() && (#[trigger] v[b]).0@ == (#[trigger] rs[i]).model@ by {
                        if i == k {
                            assert(v[a as int].0@ == rs[i].model@);
                        } else {
                            let b = choose|b: int|
                                0 <= b < old_v.len() && (#[trigger] old_v[b]).0@ == rs[i].model@;
                            assert(v[b].0@ == rs[i].model@);
                        }
                    }
                }
            },
            None => {
                proof {
                    assert(!has_model(rs, k as int, m)) by {
                        if has_model(rs, k as int, m) {
                            let i = choose|i: int| 0 <= i < k && (#[trigger] rs[i]).model@ == m;
                            let b = choose|b: int|
                                0 <= b < old_v.len() && (#[trigger] old_v[b]).0@ == rs[i].model@;
                        }
                    }
                    lemma_model_sum_absent(rs, k as int, 0, m);
                    lemma_model_sum_absent(rs, k as int, 1, m);
                    lemma_model_sum_absent(rs, k as int, 2, m);
                    lemma_model_sum_absent(rs, k as int, 3, m);
                }
                let nu = ModelUsage {
                    total_tokens: row.total,
                    prompt_tokens: row.prompt,
                    completion_tokens: row.completion,
                    call_count: row.count,
                };
                by_model.push((row.model.clone(), nu));
                proof {
                    let v = by_model@;
                    assert(v[old_v.len() as int].0@ == m);
                    assert forall|b: int| 0 <= b < v.len() implies (#[trigger] v[b]).1
                        == model_usage_of(rs, k + 1, v[b].0@) by {
                        if b < old_v.len() {
                            assert(old_v[b].0@ != m);
                            assert(v[b] == old_v[b]);
                        }
                    }
                    assert forall|b: int| 0 <= b < v.len() implies has_model(
                        rs,
                        k + 1,
                        (#[trigger] v[b]).0@,
                    ) by {
                        if b < old_v.len() {
                            assert(has_model(rs, k as int, old_v[b].0@));
                            let i = choose|i: int|
                                0 <= i < k && (#[trigger] rs[i]).model@ == old_v[b].0@;
                            assert(0 <= i < k + 1 && rs[i].model@ == v[b].0@);
                        } else {
                            assert(0 <= k < k + 1 && rs[k as int].model@ == v[b].0@);
                        }
                    }
                    assert forall|i: int| 0 <= i < k + 1 implies exists|b: int|
                        0 <= b < v.len() && (#[trigger] v[b]).0@ == (#[trigger] rs[i]).model@ by {
                        if i == k {
                            assert(v[old_v.len() as int].0@ == rs[i].model@);
                        } else {
                            let b = choose|b: int|
                                0 <= b < old_v.len() && (#[trigger] old_v[b]).0@ == rs[i].model@;
                            assert(v[b].0@ == rs[i].model@);
                        }
                    }
                }
            },
        }
        k = k + 1;
    }
    TokenUsageSummary { total_tokens: total, total_prompt: prompt, total_completion: completion, by_model }
}

impl TokenUsageSummary {
    /// The usage recorded for `model`, if any.
    pub fn model_usage(&self, model: &str) -> (r: Option<ModelUsage>)
        ensures
            r matches Some(u) ==> exists|a: int|
                0 <= a < self.by_model@.len() && (#[trigger] self.by_model@[a]).0@ == model@
                    && self.by_model@[a].1 == u,
            r is None ==> forall|a: int|
                0 <= a < self.by_model@.len() ==> (#[trigger] self.by_model@[a]).0@ != model@,
    {
        let mut a: usize = 0;
        while a < self.by_model.len()
            invariant
                a <= self.by_model@.len(),
                forall|b: int| 0 <= b < a ==> (#[trigger] self.by_model@[b]).0@ != model@,
            decreases self.by_model@.len() - a,
        {
            if str_eq(self.by_model[a].0.as_str(), model) {
                return Some(self.by_model[a].1);
            }
            a = a + 1;
        }
        None
    }
}

impl Default for TokenUsageSummary {
    fn default() -> (r: Self)
        ensures
            r.total_tokens == 0,
            r.total_prompt == 0,
            r.total_completion == 0,
            r.by_model@.len() == 0,
    {
        TokenUsageSummary { total_tokens: 0, total_prompt: 0, total_completion: 0, by_model: Vec::new() }
    }
}

} // verus!
