//! Ranked search: score every candidate against a query, keep those that
//! reach a threshold, order them by score (stably) and keep the best few.
use vstd::prelude::*;

use crate::normalization::{lowercase_of, normalize_string, normalized, to_lower};
use crate::similarity::{
    at_least,
    calculate_similarity,
    meets,
    reaches,
    score_at_least,
    similarity_of,
    Ratio,
    Score,
};

verus! {

/// Options of a search; a field left `None` takes its default.
#[derive(Clone, Copy, Debug)]
pub struct SearchOptions {
    /// At most this many results (default 10).
    pub limit: Option<u32>,
    /// The least score a result may have (default 0).
    pub threshold: Option<Ratio>,
    /// Normalize query and candidates before comparing (default true).
    pub normalize: Option<bool>,
    /// Compare without regard to case (default true).
    pub ignore_case: Option<bool>,
}

impl Default for SearchOptions {
    fn default() -> (r: SearchOptions)
        ensures
            r.limit is None,
            r.threshold is None,
            r.normalize is None,
            r.ignore_case is None,
    {
        SearchOptions { limit: None, threshold: None, normalize: None, ignore_case: None }
    }
}

/// One candidate that made it into the results: its text as given, its score
/// and its position among the candidates.
#[derive(Debug)]
pub struct SearchResult {
    pub item: String,
    pub score: Score,
    pub index: usize,
}

/// The number of results when no limit is given.
pub const DEFAULT_LIMIT: u32 = 10;

/// The effective options of a search.
pub open spec fn limit_of(o: Option<SearchOptions>) -> u32 {
    match o {
        Some(x) => x.limit.unwrap_or(DEFAULT_LIMIT),
        None => DEFAULT_LIMIT,
    }
}

pub open spec fn threshold_of(o: Option<SearchOptions>) -> Ratio {
    match o {
        Some(x) => x.threshold.unwrap_or(Ratio { num: 0, den: 1 }),
        None => Ratio { num: 0, den: 1 },
    }
}

pub open spec fn normalize_of(o: Option<SearchOptions>) -> bool {
    match o {
        Some(x) => x.normalize.unwrap_or(true),
        None => true,
    }
}

pub open spec fn ignore_case_of(o: Option<SearchOptions>) -> bool {
    match o {
        Some(x) => x.ignore_case.unwrap_or(true),
        None => true,
    }
}

/// The form in which a search compares a text.
pub open spec fn comparison_form(s: Seq<char>, normalize: bool, ignore_case: bool) -> Seq<char> {
    if normalize {
        normalized(s, ignore_case)
    } else if ignore_case {
        lowercase_of(s)
    } else {
        s
    }
}

/// Entry `(d1, s1, i1)` comes before `(d2, s2, i2)`: a higher score first,
/// and on equal scores the lower index first.
pub open spec fn precedes(d1: int, s1: int, i1: int, d2: int, s2: int, i2: int) -> bool {
    d1 * s2 < d2 * s1 || (d1 * s2 == d2 * s1 && i1 < i2)
}

pub open spec fn result_precedes(x: SearchResult, y: SearchResult) -> bool {
    precedes(
        x.score.distance as int,
        x.score.scale as int,
        x.index as int,
        y.score.distance as int,
        y.score.scale as int,
        y.index as int,
    )
}

/// Candidate `j` reaches the threshold.
pub open spec fn survives(query: Seq<char>, forms: Seq<Seq<char>>, t: Ratio, j: int) -> bool {
    meets(similarity_of(query, forms[j]).0 as int, similarity_of(query, forms[j]).1 as int, t)
}

/// `x` is a correct entry for candidate `x.index`.
pub open spec fn entry_ok(
    x: SearchResult,
    query: Seq<char>,
    items: Seq<String>,
    forms: Seq<Seq<char>>,
    t: Ratio,
) -> bool {
    &&& x.index < items.len()
    &&& x.item == items[x.index as int]
    &&& x.score.is(similarity_of(query, forms[x.index as int]))
    &&& x.score.wf()
    &&& survives(query, forms, t, x.index as int)
}

pub open spec fn strictly_ordered(r: Seq<SearchResult>) -> bool {
    forall|k1: int, k2: int| 0 <= k1 < k2 < r.len() ==> result_precedes(#[trigger] r[k1], #[trigger] r[k2])
}

/// `r` is the ranking of the candidates `items`, compared in the forms
/// `forms` against `query`: every entry is a candidate that reaches `t` with
/// its own score; entries are ordered by score, ties by index; there are at
/// most `limit` of them; and a candidate that reaches `t` is left out only
/// when `limit` entries all come before it.
pub open spec fn is_ranking(
    r: Seq<SearchResult>,
    query: Seq<char>,
    items: Seq<String>,
    forms: Seq<Seq<char>>,
    t: Ratio,
    limit: Option<u32>,
) -> bool {
    &&& forall|k: int| 0 <= k < r.len() ==> entry_ok(#[trigger] r[k], query, items, forms, t)
    &&& strictly_ordered(r)
    &&& limit is Some ==> r.len() <= limit->0
    &&& forall|j: int|
        0 <= j < items.len() && survives(query, forms, t, j) && (forall|k: int|
            0 <= k < r.len() ==> (#[trigger] r[k]).index != j) ==> {
            &&& limit is Some
            &&& r.len() == limit->0
            &&& forall|k: int|
                0 <= k < r.len() ==> precedes(
                    (#[trigger] r[k]).score.distance as int,
                    r[k].score.scale as int,
                    r[k].index as int,
                    similarity_of(query, forms[j]).0 as int,
                    similarity_of(query, forms[j]).1 as int,
                    j,
                )
        }
}

/// A candidate whose score falls below the threshold appears in no ranking,
/// whatever the limit.
pub proof fn lemma_below_threshold_excluded(
    r: Seq<SearchResult>,
    query: Seq<char>,
    items: Seq<String>,
    forms: Seq<Seq<char>>,
    t: Ratio,
    limit: Option<u32>,
    j: int,
)
    requires
        is_ranking(r, query, items, forms, t, limit),
        !survives(query, forms, t, j),
    ensures
        forall|k: int| 0 <= k < r.len() ==> (#[trigger] r[k]).index != j,
{
    assert forall|k: int| 0 <= k < r.len() implies (#[trigger] r[k]).index != j by {
        assert(entry_ok(r[k], query, items, forms, t));
    }
}

/// Entries with equal scores keep the order of their candidates.
pub proof fn lemma_ties_keep_candidate_order(
    r: Seq<SearchResult>,
    query: Seq<char>,
    items: Seq<String>,
    forms: Seq<Seq<char>>,
    t: Ratio,
    limit: Option<u32>,
    k1: int,
    k2: int,
)
    requires
        is_ranking(r, query, items, forms, t, limit),
        0 <= k1 < k2 < r.len(),
        r[k1].score.distance * r[k2].score.scale == r[k2].score.distance * r[k1].score.scale,
    ensures
        r[k1].index < r[k2].index,
{
    assert(result_precedes(r[k1], r[k2]));
}

/// A ranking never holds more entries than its limit, and each candidate
/// that reaches the threshold but is missing is outranked by every entry.
pub proof fn lemma_limit_keeps_best(
    r: Seq<SearchResult>,
    query: Seq<char>,
    items: Seq<String>,
    forms: Seq<Seq<char>>,
    t: Ratio,
    l: u32,
    j: int,
    k: int,
)
    requires
        is_ranking(r, query, items, forms, t, Some(l)),
        0 <= j < items.len(),
        survives(query, forms, t, j),
        forall|m: int| 0 <= m < r.len() ==> (#[trigger] r[m]).index != j,
        0 <= k < r.len(),
    ensures
        r.len() == l,
        precedes(
            r[k].score.distance as int,
            r[k].score.scale as int,
            r[k].index as int,
            similarity_of(query, forms[j]).0 as int,
            similarity_of(query, forms[j]).1 as int,
            j,
        ),
{
}

proof fn lemma_at_least_transitive(d1: int, s1: int, d2: int, s2: int, d3: int, s3: int)
    requires
        s1 > 0,
        s2 > 0,
        s3 > 0,
        score_at_least(d1, s1, d2, s2),
        score_at_least(d2, s2, d3, s3),
    ensures
        score_at_least(d1, s1, d3, s3),
{
    assert(d1 * s2 * s3 <= d2 * s1 * s3) by (nonlinear_arith)
        requires
            d1 * s2 <= d2 * s1,
            s3 > 0,
    ;
    assert(d2 * s1 * s3 <= d3 * s2 * s1) by (nonlinear_arith)
        requires
            d2 * s3 <= d3 * s2,
            s1 > 0,
    ;
    assert(d1 * s3 <= d3 * s1) by (nonlinear_arith)
        requires
            d1 * s2 * s3 <= d2 * s1 * s3,
            d2 * s1 * s3 <= d3 * s2 * s1,
            s2 > 0,
    ;
}

/// Ranks the candidates `items`, whose comparison forms are `forms`, against
/// the comparison form `query` of a query.
pub fn rank(
    query: &str,
    items: &Vec<String>,
    forms: &Vec<String>,
    threshold: Ratio,
    limit: Option<u32>,
) -> (r: Vec<SearchResult>)
    requires
        items@.len() == forms@.len(),
    ensures
        is_ranking(r@, query@, items@, forms@.map_values(|f: String| f@), threshold, limit),
{
    let ghost fs = forms@.map_values(|f: String| f@);
    let mut out: Vec<SearchResult> = Vec::new();
    let mut i: usize = 0;
    while i < items.len()
        invariant
            items@.len() == forms@.len(),
            fs == forms@.map_values(|f: String| f@),
            i <= items@.len(),
            forall|k: int|
                0 <= k < out@.len() ==> entry_ok(#[trigger] out@[k], query@, items@, fs, threshold)
                    && out@[k].index < i,
            strictly_ordered(out@),
            forall|j: int|
                0 <= j < i && survives(query@, fs, threshold, j) ==> exists|k: int|
                    0 <= k < out@.len() && (#[trigger] out@[k]).index == j,
        decreases items@.len() - i,
    {
        let score = calculate_similarity(query, forms[i].as_str());
        assert(fs[i as int] == forms@[i as int]@);
        if reaches(score, threshold) {
            let mut p = out.len();
            while p > 0 && !at_least(out[p - 1].score, score)
                invariant
                    p <= out@.len(),
                    forall|k: int|
                        p <= k < out@.len() ==> !score_at_least(
                            (#[trigger] out@[k]).score.distance as int,
                            out@[k].score.scale as int,
                            score.distance as int,
                            score.scale as int,
                        ),
                decreases p,
            {
                p -= 1;
            }
            let entry = SearchResult { item: items[i].clone(), score, index: i };
            let ghost old_out = out@;
            proof {
                assert forall|k: int| 0 <= k < p implies result_precedes(
                    #[trigger] old_out[k],
                    entry,
                ) by {
                    let q = old_out[p - 1];
                    let x = old_out[k];
                    if k < p - 1 {
                        assert(result_precedes(x, q));
                        lemma_at_least_transitive(
                            x.score.distance as int,
                            x.score.scale as int,
                            q.score.distance as int,
                            q.score.scale as int,
                            score.distance as int,
                            score.scale as int,
                        );
                    }
                }
                assert forall|k: int| p <= k < old_out.len() implies result_precedes(
                    entry,
                    #[trigger] old_out[k],
                ) by {}
            }
            out.insert(p, entry);
            proof {
                assert forall|k1: int, k2: int| 0 <= k1 < k2 < out@.len() implies result_precedes(
                    #[trigger] out@[k1],
                    #[trigger] out@[k2],
                ) by {
                    if k1 < p && k2 > p {
                        assert(result_precedes(old_out[k1], old_out[k2 - 1]));
                    } else if k1 > p {
                        assert(result_precedes(old_out[k1 - 1], old_out[k2 - 1]));
                    }
                }
                assert forall|j: int|
                    0 <= j < i + 1 && survives(query@, fs, threshold, j) implies exists|k: int|
                    0 <= k < out@.len() && (#[trigger] out@[k]).index == j by {
                    if j == i {
                        assert(out@[p as int].index == j);
                    } else {
                        let k0 = choose|k: int| 0 <= k < old_out.len() && old_out[k].index == j;
                        if k0 < p {
                            assert(out@[k0].index == j);
                        } else {
                            assert(out@[k0 + 1].index == j);
                        }
                    }
                }
            }
        }
        i += 1;
    }
    let ghost full = out@;
    match limit {
        Some(l) => {
            out.truncate(l as usize);
        },
        None => {},
    }
    proof {
        assert forall|j: int|
            0 <= j < items@.len() && survives(query@, fs, threshold, j) && (forall|k: int|
                0 <= k < out@.len() ==> (#[trigger] out@[k]).index != j) implies {
            &&& limit is Some
            &&& out@.len() == limit->0
            &&& forall|k: int|
                0 <= k < out@.len() ==> precedes(
                    (#[trigger] out@[k]).score.distance as int,
                    out@[k].score.scale as int,
                    out@[k].index as int,
                    similarity_of(query@, fs[j]).0 as int,
                    similarity_of(query@, fs[j]).1 as int,
                    j,
                )
        } by {
            let k0 = choose|k: int| 0 <= k < full.len() && (#[trigger] full[k]).index == j;
            if k0 < out@.len() {
                assert(out@[k0].index == j);
            }
            assert forall|k: int| 0 <= k < out@.len() implies precedes(
                (#[trigger] out@[k]).score.distance as int,
                out@[k].score.scale as int,
                out@[k].index as int,
                similarity_of(query@, fs[j]).0 as int,
                similarity_of(query@, fs[j]).1 as int,
                j,
            ) by {
                assert(result_precedes(full[k], full[k0]));
            }
        }
    }
    out
}

/// The comparison form of `s`: normalized when `normalize` holds (folding
/// case when `ignore_case` holds), else lowercased when `ignore_case` holds,
/// else `s` itself.
pub fn comparison_form_of(s: &str, normalize: bool, ignore_case: bool) -> (r: String)
    ensures
        r@ == comparison_form(s@, normalize, ignore_case),
{
    if normalize {
        normalize_string(s, ignore_case)
    } else if ignore_case {
        to_lower(s)
    } else {
        s.to_owned()
    }
}

/// The comparison forms of every candidate, in order.
pub open spec fn forms_of(items: Seq<String>, normalize: bool, ignore_case: bool) -> Seq<
    Seq<char>,
> {
    Seq::new(items.len(), |j: int| comparison_form(items[j]@, normalize, ignore_case))
}

/// Ranks `items` against `query` under `options`: the query and every
/// candidate are brought to their comparison form, each candidate is scored
/// against the query, and the ranking keeps those that reach the threshold,
/// best first, ties in candidate order, at most `limit` of them.
pub fn search(query: String, items: Vec<String>, options: Option<SearchOptions>) -> (r: Vec<
    SearchResult,
>)
    ensures
        is_ranking(
            r@,
            comparison_form(query@, normalize_of(options), ignore_case_of(options)),
            items@,
            forms_of(items@, normalize_of(options), ignore_case_of(options)),
            threshold_of(options),
            Some(limit_of(options)),
        ),
{
    let opts = match options {
        Some(o) => o,
        None => SearchOptions::default(),
    };
    let normalize = match opts.normalize {
        Some(v) => v,
        None => true,
    };
    let ignore_case = match opts.ignore_case {
        Some(v) => v,
        None => true,
    };
    let threshold = match opts.threshold {
        Some(t) => t,
        None => Ratio { num: 0, den: 1 },
    };
    let limit = match opts.limit {
        Some(l) => l,
        None => DEFAULT_LIMIT,
    };
    let query_form = comparison_form_of(query.as_str(), normalize, ignore_case);
    let mut forms: Vec<String> = Vec::new();
    let mut i: usize = 0;
    while i < items.len()
        invariant
            i <= items@.len(),
            forms@.len() == i,
            forall|j: int|
                0 <= j < i ==> (#[trigger] forms@[j])@ == comparison_form(
                    items@[j]@,
                    normalize,
                    ignore_case,
                ),
        decreases items@.len() - i,
    {
        let f = comparison_form_of(items[i].as_str(), normalize, ignore_case);
        forms.push(f);
        i += 1;
    }
    assert(forms@.map_values(|f: String| f@) =~= forms_of(items@, normalize, ignore_case));
    rank(query_form.as_str(), &items, &forms, threshold, Some(limit))
}

} // verus!
