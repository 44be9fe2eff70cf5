//! The scan result of one target, and the order in which results are reported.
use vstd::prelude::*;

verus! {

/// One finding of a template scanner run against a target.
#[derive(Debug, Clone, PartialEq, Eq)]
pub struct TemplateResult {
    /// The identifier of the template that matched.
    pub template_id: String,
    /// The severity that the template declares.
    pub severity: String,
    /// Where the template matched.
    pub matched_at: String,
    /// A command line that reproduces the request.
    pub curl_command: String,
    /// The finding as the scanner printed it, one JSON object.
    pub raw: String,
}

/// What a scan found out about one target.
#[derive(Debug, Clone, PartialEq, Eq)]
pub struct WhatWebResult {
    /// The target's address.
    pub url: String,
    /// The names of the technologies recognised.
    pub name: Vec<String>,
    /// How much the result matters; higher comes first.
    pub priority: u32,
    /// The length of the response body.
    pub length: usize,
    /// The page title.
    pub title: String,
    /// The HTTP status code of the response.
    pub status_code: u16,
    /// Whether the target answered as a web service.
    pub is_web: bool,
    /// The identifiers of the templates that matched (after a template scan,
    /// each once: see `apply_nuclei_templates`).
    pub plugins: Vec<String>,
    /// The template findings themselves, where they are kept.
    pub plugins_result: Option<Vec<TemplateResult>>,
}

/// Results are reordered only below this many.
pub const SORT_LIMIT: usize = 2000;

/// The first index from `i` on whose priority is below `p`, or the length.
pub open spec fn first_below(s: Seq<WhatWebResult>, p: u32, i: int) -> int
    decreases s.len() - i,
{
    if i < 0 || i >= s.len() {
        s.len() as int
    } else if s[i].priority < p {
        i
    } else {
        first_below(s, p, i + 1)
    }
}

/// `s` ordered by descending priority, equal priorities in their order in `s`
/// (a stable sort): each element goes in after every element already placed
/// whose priority is at least its own.
pub open spec fn sorted_by_priority(s: Seq<WhatWebResult>) -> Seq<WhatWebResult>
    decreases s.len(),
{
    if s.len() == 0 {
        s
    } else {
        let r = sorted_by_priority(s.drop_last());
        r.insert(first_below(r, s.last().priority, 0), s.last())
    }
}

/// The order in which results are reported: by priority when there are fewer
/// than [`SORT_LIMIT`], else as they came.
pub open spec fn ordered_results(s: Seq<WhatWebResult>) -> Seq<WhatWebResult> {
    if s.len() < SORT_LIMIT {
        sorted_by_priority(s)
    } else {
        s
    }
}

/// No element has a lower priority than one after it.
pub open spec fn is_descending(s: Seq<WhatWebResult>) -> bool {
    forall|i: int, j: int| 0 <= i < j < s.len() ==> s[i].priority >= s[j].priority
}

proof fn lemma_first_below(s: Seq<WhatWebResult>, p: u32, i: int)
    requires
        0 <= i <= s.len(),
    ensures
        i <= first_below(s, p, i) <= s.len(),
        forall|j: int| i <= j < first_below(s, p, i) ==> s[j].priority >= p,
        first_below(s, p, i) < s.len() ==> s[first_below(s, p, i)].priority < p,
    decreases s.len() - i,
{
    if i < s.len() && s[i].priority >= p {
        lemma_first_below(s, p, i + 1);
    }
}

/// Sorting keeps the elements: the result is a permutation of `s`.
pub proof fn lemma_sorted_permutation(s: Seq<WhatWebResult>)
    ensures
        sorted_by_priority(s).to_multiset() == s.to_multiset(),
        sorted_by_priority(s).len() == s.len(),
    decreases s.len(),
{
    broadcast use vstd::seq_lib::to_multiset_insert, vstd::seq_lib::to_multiset_build;

    if s.len() > 0 {
        let r = sorted_by_priority(s.drop_last());
        lemma_sorted_permutation(s.drop_last());
        lemma_first_below(r, s.last().priority, 0);
        assert(s.drop_last().push(s.last()) == s);
    }
}

/// Sorting orders by descending priority.
pub proof fn lemma_sorted_descending(s: Seq<WhatWebResult>)
    ensures
        is_descending(sorted_by_priority(s)),
    decreases s.len(),
{
    if s.len() > 0 {
        let r = sorted_by_priority(s.drop_last());
        let x = s.last();
        lemma_sorted_descending(s.drop_last());
        lemma_first_below(r, x.priority, 0);
        let k = first_below(r, x.priority, 0);
        let t = r.insert(k, x);
        assert forall|j: int| k <= j < r.len() implies r[j].priority < x.priority by {
            if j > k {
                assert(r[k].priority >= r[j].priority);
            }
        }
        assert forall|i: int, j: int| 0 <= i < j < t.len() implies t[i].priority
            >= t[j].priority by {
            if i < k {
                if j < k {
                    assert(t[i] == r[i] && t[j] == r[j]);
                } else if j == k {
                    assert(t[i] == r[i]);
                } else {
                    assert(t[i] == r[i] && t[j] == r[j - 1]);
                }
            } else if i == k {
                assert(t[j] == r[j - 1]);
            } else {
                assert(t[i] == r[i - 1] && t[j] == r[j - 1]);
            }
        }
    }
}

/// Sorting results that are already in order changes nothing.
pub proof fn lemma_sorted_stable_on_ordered(s: Seq<WhatWebResult>)
    requires
        is_descending(s),
    ensures
        sorted_by_priority(s) == s,
    decreases s.len(),
{
    if s.len() > 0 {
        let prefix = s.drop_last();
        assert(is_descending(prefix));
        lemma_sorted_stable_on_ordered(prefix);
        lemma_first_below(prefix, s.last().priority, 0);
        let k = first_below(prefix, s.last().priority, 0);
        if k < prefix.len() {
            assert(s[k].priority >= s[s.len() - 1].priority);
        }
        assert(prefix.insert(prefix.len() as int, s.last()) == s);
    }
}

/// Orders scan results for reporting: when there are fewer than
/// [`SORT_LIMIT`], by descending priority with ties in their given order;
/// otherwise they stay as they are.
pub fn order_results(results: Vec<WhatWebResult>) -> (res: Vec<WhatWebResult>)
    ensures
        res@ == ordered_results(results@),
{
    if results.len() >= SORT_LIMIT {
        return results;
    }
    let ghost orig = results@;
    let mut rest = results;
    let mut out: Vec<WhatWebResult> = Vec::new();
    let ghost mut n: int = 0;
    while rest.len() > 0
        invariant
            0 <= n <= orig.len(),
            rest@ == orig.skip(n),
            out@ == sorted_by_priority(orig.take(n)),
        decreases rest.len(),
    {
        let x = rest.remove(0);
        let p = x.priority;
        let mut k: usize = 0;
        while k < out.len() && out[k].priority >= p
            invariant
                k <= out.len(),
                first_below(out@, p, 0) == first_below(out@, p, k as int),
            decreases out.len() - k,
        {
            k = k + 1;
        }
        proof {
            assert(orig.take(n + 1).drop_last() == orig.take(n));
            assert(orig.take(n + 1).last() == x);
            assert(orig.skip(n).remove(0) == orig.skip(n + 1));
        }
        out.insert(k, x);
        proof {
            n = n + 1;
        }
    }
    assert(orig.take(orig.len() as int) == orig);
    out
}


/// Reordering keeps every result: the output is a permutation of the input;
/// below [`SORT_LIMIT`] results it is ordered by descending priority, leaves
/// results already in that order as they are, and at or above the limit it
/// is the input itself.
pub proof fn law_order_results(s: Seq<WhatWebResult>)
    ensures
        ordered_results(s).to_multiset() == s.to_multiset(),
        s.len() < SORT_LIMIT ==> is_descending(ordered_results(s)),
        s.len() < SORT_LIMIT && is_descending(s) ==> ordered_results(s) == s,
        s.len() >= SORT_LIMIT ==> ordered_results(s) == s,
{
    lemma_sorted_permutation(s);
    lemma_sorted_descending(s);
    if is_descending(s) {
        lemma_sorted_stable_on_ordered(s);
    }
}

} // verus!
