use vstd::prelude::*;
use crate::episode::{clamp_utility, in_scope, utility_ok, Episode};
use crate::feedback::rate_all;
use crate::propagation::{credit, credit_upto, propagation_step, reach_upto};
use crate::store::with_utility;
use crate::vector::{components_ok, lemma_dist2, lemma_sim_bounds, MAX_DIM};
use crate::rank::{is_top_k, key_ge, lemma_top_k_complete, lemma_top_k_unique};
use crate::retrieval::{is_retrieval, is_search_result, member_mask, recency_keys, search_keys, scope_mask};
use crate::store::EpisodeStore;
use crate::review::{is_duplicate, kept_upto, removable, representative};

verus! {

proof fn lemma_distinct_set_len(r: Seq<usize>)
    requires
        forall|i: int, j: int| 0 <= i < j < r.len() ==> r[i] != r[j],
    ensures
        r.to_set().len() == r.len(),
        r.to_set().finite(),
{
    assert(r.no_duplicates()) by {
        assert forall|i: int, j: int| 0 <= i < r.len() && 0 <= j < r.len() && i != j implies r[i]
            != r[j] by {
            if i < j {
                assert(r[i] != r[j]);
            } else {
                assert(r[j] != r[i]);
            }
        }
    }
    r.unique_seq_to_set();
    vstd::seq_lib::seq_to_set_is_finite(r);
}

proof fn lemma_usize_ints(r: Seq<usize>) -> (s: Set<int>)
    requires
        forall|i: int, j: int| 0 <= i < j < r.len() ==> r[i] != r[j],
    ensures
        s.finite(),
        s.len() == r.len(),
        forall|x: int| s.contains(x) <==> (0 <= x && r.contains(x as usize) && x <= usize::MAX),
{
    let m = r.map_values(|v: usize| v as int);
    assert(m.no_duplicates()) by {
        assert forall|i: int, j: int| 0 <= i < m.len() && 0 <= j < m.len() && i != j implies m[i]
            != m[j] by {
            if i < j {
                assert(r[i] != r[j]);
            } else {
                assert(r[j] != r[i]);
            }
        }
    }
    m.unique_seq_to_set();
    vstd::seq_lib::seq_to_set_is_finite(m);
    let s = m.to_set();
    assert forall|x: int| s.contains(x) <==> (0 <= x && r.contains(x as usize) && x <= usize::MAX) by {
        if s.contains(x) {
            let i = choose|i: int| 0 <= i < m.len() && m[i] == x;
            assert(r[i] as int == x);
        }
        if 0 <= x && r.contains(x as usize) && x <= usize::MAX {
            let i = choose|i: int| 0 <= i < r.len() && r[i] == x as usize;
            assert(m[i] == x);
        }
    }
    s
}

/// Retrieval by an episode's own embedding finds it: the episode is among
/// the results, unless `limit` results came back that all have exactly its
/// embedding (copies of it that rank ahead of it on utility or recency).
pub proof fn law_round_trip(
    eps: Seq<Episode>,
    e: int,
    limit: int,
    filter: Option<String>,
    pos: Seq<usize>,
)
    requires
        0 <= e < eps.len(),
        eps.len() <= usize::MAX,
        eps[e].embedding.len() <= MAX_DIM,
        forall|i: int|
            0 <= i < eps.len() ==> #[trigger] eps[i].embedding.len() == eps[e].embedding.len()
                && components_ok(eps[i].embedding@),
        in_scope(eps[e].project, filter),
        is_retrieval(eps, eps[e].embedding@, limit, filter, false, pos),
    ensures
        pos.contains(e as usize) || (pos.len() == limit && forall|i: int|
            0 <= i < pos.len() ==> #[trigger] eps[pos[i] as int].embedding@ == eps[e].embedding@),
{
    law_round_trip_ranked(eps, e, limit, filter, pos);
    let q = eps[e].embedding@;
    if !pos.contains(e as usize) {
        lemma_dist2(q, q, q.len() as int);
        assert forall|i: int| 0 <= i < pos.len() implies #[trigger] eps[pos[i] as int].embedding@ == q by {
            let p = pos[i] as int;
            assert(key_ge(search_keys(eps, q)[p], search_keys(eps, q)[e]));
            let b = eps[p].embedding@;
            assert(eps[p].embedding.len() == eps[e].embedding.len());
            lemma_sim_bounds(q, b);
            lemma_dist2(q, b, q.len() as int);
            assert(b =~= q);
        }
    }
}

/// Retrieval by an episode's own embedding returns it, unless `limit`
/// results came back that each match the query at least as well.
pub proof fn law_round_trip_ranked(
    eps: Seq<Episode>,
    e: int,
    limit: int,
    filter: Option<String>,
    pos: Seq<usize>,
)
    requires
        0 <= e < eps.len(),
        eps.len() <= usize::MAX,
        in_scope(eps[e].project, filter),
        is_retrieval(eps, eps[e].embedding@, limit, filter, false, pos),
    ensures
        pos.contains(e as usize) || (pos.len() == limit && forall|i: int|
            0 <= i < pos.len() ==> key_ge(
                #[trigger] search_keys(eps, eps[e].embedding@)[pos[i] as int],
                search_keys(eps, eps[e].embedding@)[e],
            )),
{
    let q = eps[e].embedding@;
    let found = choose|found: Seq<usize>|
        is_search_result(eps, q, limit, filter, found) && is_top_k(
            crate::retrieval::retrieval_keys(eps, q),
            member_mask(eps.len(), found),
            limit,
            pos,
        );
    let keys2 = crate::retrieval::retrieval_keys(eps, q);
    let mask = member_mask(eps.len(), found);
    let pool = lemma_usize_ints(found);
    assert forall|x: int| 0 <= x < keys2.len() && #[trigger] mask[x] implies pool.contains(x) by {}
    lemma_top_k_complete(keys2, mask, limit, pos, pool);
    assert(scope_mask(eps, filter)[e]);
    if !pos.contains(e as usize) {
        assert(!found.contains(e as usize)) by {
            if found.contains(e as usize) {
                assert(mask[e]);
            }
        }
        assert(found.len() == limit);
        lemma_distinct_set_len(found);
        lemma_distinct_set_len(pos);
        assert(found.to_set().subset_of(pos.to_set())) by {
            assert forall|v: usize| found.to_set().contains(v) implies pos.to_set().contains(v) by {
                let i = choose|i: int| 0 <= i < found.len() && found[i] == v;
                assert(mask[v as int]);
                assert(pos.contains((v as int) as usize));
            }
        }
        vstd::set_lib::lemma_len_subset(found.to_set(), pos.to_set());
        assert forall|i: int| 0 <= i < pos.len() implies key_ge(
            #[trigger] search_keys(eps, q)[pos[i] as int],
            search_keys(eps, q)[e],
        ) by {
            assert(mask[pos[i] as int]);
            let t = choose|t: int| 0 <= t < found.len() && found[t] == pos[i];
            assert(key_ge(search_keys(eps, q)[found[t] as int], search_keys(eps, q)[e]));
        }
    }
}

/// Retrieval under a project filter returns only episodes of that project;
/// unscoped episodes never pass a filter.
pub proof fn law_retrieval_in_scope(
    eps: Seq<Episode>,
    q: Seq<i32>,
    limit: int,
    filter: Option<String>,
    all: bool,
    pos: Seq<usize>,
)
    requires
        is_retrieval(eps, q, limit, filter, all, pos),
    ensures
        forall|i: int| 0 <= i < pos.len() ==> in_scope(eps[#[trigger] pos[i] as int].project, filter),
        filter is Some ==> forall|i: int|
            0 <= i < pos.len() ==> eps[#[trigger] pos[i] as int].project is Some,
{
    assert forall|i: int| 0 <= i < pos.len() implies in_scope(eps[#[trigger] pos[i] as int].project, filter) by {
        if all {
            assert(scope_mask(eps, filter)[pos[i] as int]);
        } else {
            let found = choose|found: Seq<usize>|
                is_search_result(eps, q, limit, filter, found) && is_top_k(
                    crate::retrieval::retrieval_keys(eps, q),
                    member_mask(eps.len(), found),
                    limit,
                    pos,
                );
            assert(member_mask(eps.len(), found)[pos[i] as int]);
            let t = choose|t: int| 0 <= t < found.len() && found[t] == pos[i];
            assert(scope_mask(eps, filter)[found[t] as int]);
        }
    }
}

/// List mode ignores the query: two listings of one store under one
/// project filter return the same positions, in the same order, whatever
/// the queries and limits.
pub proof fn law_listing_ignores_query(
    eps: Seq<Episode>,
    filter: Option<String>,
    q1: Seq<i32>,
    q2: Seq<i32>,
    limit1: int,
    limit2: int,
    a: Seq<usize>,
    b: Seq<usize>,
)
    requires
        eps.len() <= usize::MAX,
        is_retrieval(eps, q1, limit1, filter, true, a),
        is_retrieval(eps, q2, limit2, filter, true, b),
    ensures
        a == b,
{
    let keys = recency_keys(eps);
    assert forall|x: int, y: int| 0 <= x < y < keys.len() implies keys[x] != keys[y] by {
        assert(keys[x].2 == x as u64);
        assert(keys[y].2 == y as u64);
    }
    lemma_top_k_unique(keys, scope_mask(eps, filter), eps.len() as int, a, b);
}

/// Every episode of a store holds its utility within the declared range.
/// Each operation that changes a store keeps the store well formed, so this
/// holds after any sequence of feedback and propagation.
pub proof fn law_utilities_bounded(s: &EpisodeStore)
    requires
        s.wf(),
    ensures
        forall|i: int| 0 <= i < s.eps().len() ==> utility_ok(#[trigger] s.eps()[i].utility as int),
{
    assert forall|i: int| 0 <= i < s.eps().len() implies utility_ok(#[trigger] s.eps()[i].utility as int) by {
        assert(crate::store::episode_ok(s.eps()[i], s.spec_dim(), s.spec_next_id()));
    }
}

/// Feedback keeps every utility within its declared range.
pub proof fn law_feedback_bounded(eps: Seq<Episode>, ids: Seq<u64>, helpful: bool)
    requires
        forall|i: int| 0 <= i < eps.len() ==> utility_ok(#[trigger] eps[i].utility as int),
    ensures
        forall|i: int|
            0 <= i < eps.len() ==> utility_ok(#[trigger] rate_all(eps, ids, helpful)[i].utility as int),
{
}

/// A propagation pass keeps every utility within its declared range.
pub proof fn law_propagation_bounded(
    old: Seq<Episode>,
    new: Seq<Episode>,
    filter: Option<String>,
    temporal: bool,
)
    requires
        forall|i: int| 0 <= i < old.len() ==> utility_ok(#[trigger] old[i].utility as int),
        propagation_step(old, new, filter, temporal),
    ensures
        forall|i: int| 0 <= i < new.len() ==> utility_ok(#[trigger] new[i].utility as int),
{
    assert forall|i: int| 0 <= i < new.len() implies utility_ok(#[trigger] new[i].utility as int) by {
        assert(new[i] == if in_scope(old[i].project, filter) {
            with_utility(
                old[i],
                clamp_utility(old[i].feedback_utility + credit(old, filter, temporal, i)) as i64,
            )
        } else {
            old[i]
        });
    }
}

proof fn lemma_same_reach(a: Seq<Episode>, b: Seq<Episode>, filter: Option<String>, s: int, n: int)
    requires
        a.len() == b.len(),
        0 <= s < a.len(),
        n <= a.len(),
        forall|x: int| 0 <= x < a.len() ==> #[trigger] b[x] == with_utility(a[x], b[x].utility),
    ensures
        reach_upto(a, filter, s, n) == reach_upto(b, filter, s, n),
    decreases n,
{
    if n > 0 {
        lemma_same_reach(a, b, filter, s, n - 1);
        assert(b[n - 1] == with_utility(a[n - 1], b[n - 1].utility));
        assert(b[s] == with_utility(a[s], b[s].utility));
    }
}

proof fn lemma_same_credit(
    a: Seq<Episode>,
    b: Seq<Episode>,
    filter: Option<String>,
    temporal: bool,
    i: int,
    n: int,
)
    requires
        a.len() == b.len(),
        0 <= i < a.len(),
        n <= a.len(),
        forall|x: int| 0 <= x < a.len() ==> #[trigger] b[x] == with_utility(a[x], b[x].utility),
    ensures
        credit_upto(a, filter, temporal, i, n) == credit_upto(b, filter, temporal, i, n),
    decreases n,
{
    if n > 0 {
        lemma_same_credit(a, b, filter, temporal, i, n - 1);
        let s = n - 1;
        assert(b[s] == with_utility(a[s], b[s].utility));
        assert(b[i] == with_utility(a[i], b[i].utility));
        lemma_same_reach(a, b, filter, s, a.len() as int);
    }
}

/// Propagation settles in one pass: with no feedback in between, a second
/// pass over the same scope changes nothing.
pub proof fn law_propagation_settles(
    s0: Seq<Episode>,
    s1: Seq<Episode>,
    s2: Seq<Episode>,
    filter: Option<String>,
    temporal: bool,
)
    requires
        propagation_step(s0, s1, filter, temporal),
        propagation_step(s1, s2, filter, temporal),
    ensures
        s2 == s1,
{
    assert forall|x: int| 0 <= x < s0.len() implies #[trigger] s1[x] == with_utility(s0[x], s1[x].utility) by {
        assert(s1[x] == if in_scope(s0[x].project, filter) {
            with_utility(s0[x], clamp_utility(s0[x].feedback_utility + credit(s0, filter, temporal, x)) as i64)
        } else {
            s0[x]
        });
    }
    assert forall|i: int| 0 <= i < s1.len() implies #[trigger] s2[i] == s1[i] by {
        lemma_same_credit(s0, s1, filter, temporal, i, s0.len() as int);
        assert(s1[i] == with_utility(s0[i], s1[i].utility));
        assert(s2[i] == if in_scope(s1[i].project, filter) {
            with_utility(s1[i], clamp_utility(s1[i].feedback_utility + credit(s1, filter, temporal, i)) as i64)
        } else {
            s1[i]
        });
        assert(s1[i] == if in_scope(s0[i].project, filter) {
            with_utility(s0[i], clamp_utility(s0[i].feedback_utility + credit(s0, filter, temporal, i)) as i64)
        } else {
            s0[i]
        });
    }
    assert(s2 =~= s1);
}

proof fn lemma_kept_contains(eps: Seq<Episode>, filter: Option<String>, n: int, i: int)
    requires
        0 <= i < n <= eps.len(),
        !removable(eps, filter, i),
    ensures
        kept_upto(eps, filter, n).contains(eps[i]),
    decreases n,
{
    let prev = kept_upto(eps, filter, n - 1);
    if i == n - 1 {
        assert(kept_upto(eps, filter, n) == prev.push(eps[i]));
        assert(kept_upto(eps, filter, n)[prev.len() as int] == eps[i]);
    } else {
        lemma_kept_contains(eps, filter, n - 1, i);
        let j = choose|j: int| 0 <= j < prev.len() && prev[j] == eps[i];
        if !removable(eps, filter, n - 1) {
            assert(kept_upto(eps, filter, n)[j] == eps[i]);
        }
    }
}

/// Cleanup keeps every episode that analysis names as a representative,
/// every episode that is no duplicate, and every episode ever found helpful.
pub proof fn law_cleanup_safe(eps: Seq<Episode>, filter: Option<String>)
    ensures
        forall|i: int|
            0 <= i < eps.len() && (!is_duplicate(eps, filter, i) || eps[i].helpful_count > 0)
                ==> #[trigger] kept_upto(eps, filter, eps.len() as int).contains(eps[i]),
        forall|j: int|
            0 <= j < eps.len() && #[trigger] is_duplicate(eps, filter, j) ==> kept_upto(
                eps,
                filter,
                eps.len() as int,
            ).contains(eps[representative(eps, filter, j)]),
{
    assert forall|i: int|
        0 <= i < eps.len() && (!is_duplicate(eps, filter, i) || eps[i].helpful_count > 0)
            implies #[trigger] kept_upto(eps, filter, eps.len() as int).contains(eps[i]) by {
        lemma_kept_contains(eps, filter, eps.len() as int, i);
    }
    assert forall|j: int|
        0 <= j < eps.len() && #[trigger] is_duplicate(eps, filter, j) implies kept_upto(
            eps,
            filter,
            eps.len() as int,
        ).contains(eps[representative(eps, filter, j)]) by {
        let r = representative(eps, filter, j);
        crate::review::lemma_best_range(eps, filter, j, eps.len() as int);
        assert(crate::review::is_named_representative(eps, filter, r));
        lemma_kept_contains(eps, filter, eps.len() as int, r);
    }
}

} // verus!
