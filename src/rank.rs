use vstd::prelude::*;
use vstd::set_lib::{lemma_int_range, lemma_len_subset, set_int_range};

verus! {

/// A ranking key, compared lexicographically: primary, secondary, then
/// tertiary component, larger first.
pub type RankKey = (i64, i64, u64);

/// `a` ranks at least as high as `b`.
pub open spec fn key_ge(a: RankKey, b: RankKey) -> bool {
    a.0 > b.0 || (a.0 == b.0 && (a.1 > b.1 || (a.1 == b.1 && a.2 >= b.2)))
}

fn key_at_least(a: RankKey, b: RankKey) -> (r: bool)
    ensures
        r == key_ge(a, b),
{
    a.0 > b.0 || (a.0 == b.0 && (a.1 > b.1 || (a.1 == b.1 && a.2 >= b.2)))
}

/// `r` lists the `k` highest-ranked eligible positions, best first: every
/// eligible position left out ranks no higher than any listed one, and one
/// is left out only when `k` positions are listed.
pub open spec fn is_top_k(keys: Seq<RankKey>, eligible: Seq<bool>, k: int, r: Seq<usize>) -> bool {
    &&& r.len() <= k
    &&& forall|i: int| 0 <= i < r.len() ==> (#[trigger] r[i] as int) < keys.len()
    &&& forall|i: int| 0 <= i < r.len() ==> #[trigger] eligible[r[i] as int]
    &&& forall|i: int, j: int| 0 <= i < j < r.len() ==> r[i] != r[j]
    &&& forall|i: int, j: int|
        0 <= i < j < r.len() ==> key_ge(keys[#[trigger] r[i] as int], keys[#[trigger] r[j] as int])
    &&& forall|x: int|
        0 <= x < keys.len() && eligible[x] && !r.contains(x as usize) ==> {
            &&& r.len() == k
            &&& forall|i: int| 0 <= i < r.len() ==> key_ge(keys[#[trigger] r[i] as int], keys[x])
        }
}

/// Positions of the `k` highest-ranked eligible keys, best first.
pub fn top_k(keys: &Vec<RankKey>, eligible: &Vec<bool>, k: usize) -> (r: Vec<usize>)
    requires
        keys.len() == eligible.len(),
    ensures
        is_top_k(keys@, eligible@, k as int, r@),
{
    let n = keys.len();
    let mut taken: Vec<bool> = vec![false; n];
    let mut r: Vec<usize> = Vec::new();
    let mut exhausted = false;
    while r.len() < k && !exhausted
        invariant
            exhausted ==> forall|x: int| 0 <= x < n ==> !(#[trigger] eligible[x]) || taken[x],
            n == keys.len(),
            n == eligible.len(),
            taken.len() == n,
            r.len() <= k,
            forall|x: int| 0 <= x < n ==> (#[trigger] taken[x] <==> r@.contains(x as usize)),
            forall|i: int| 0 <= i < r.len() ==> (#[trigger] r@[i] as int) < n,
            forall|i: int| 0 <= i < r.len() ==> #[trigger] eligible@[r@[i] as int],
            forall|i: int, j: int| 0 <= i < j < r.len() ==> r[i] != r[j],
            forall|i: int, j: int|
                0 <= i < j < r.len() ==> key_ge(keys[#[trigger] r[i] as int], keys[#[trigger] r[j] as int]),
            forall|x: int, i: int|
                0 <= x < n && eligible[x] && !taken[x] && 0 <= i < r.len() ==> key_ge(
                    keys[#[trigger] r[i] as int],
                    #[trigger] keys[x],
                ),
        decreases k - r.len(), if exhausted { 0int } else { 1int },
    {
        let mut best: Option<usize> = None;
        let mut j: usize = 0;
        while j < n
            invariant
                n == keys.len(),
                n == eligible.len(),
                taken.len() == n,
                j <= n,
                match best {
                    Some(b) => (b as int) < n && eligible[b as int] && !taken[b as int] && forall|
                        x: int,
                    |
                        0 <= x < j && eligible[x] && !taken[x] ==> key_ge(keys[b as int], #[trigger] keys[x]),
                    None => forall|x: int| 0 <= x < j ==> !(#[trigger] eligible[x]) || taken[x],
                },
            decreases n - j,
        {
            if eligible[j] && !taken[j] {
                match best {
                    Some(b) => {
                        if !key_at_least(keys[b], keys[j]) {
                            best = Some(j);
                        }
                    },
                    None => {
                        best = Some(j);
                    },
                }
            }
            j = j + 1;
        }
        match best {
            None => {
                exhausted = true;
            },
            Some(b) => {
                let ghost old_r = r@;
                r.push(b);
                taken.set(b, true);
                assert(r@[old_r.len() as int] == b);
                assert forall|i: int| 0 <= i < old_r.len() implies r@[i] == old_r[i] by {}
                assert forall|x: int| 0 <= x < n implies (#[trigger] taken[x] <==> r@.contains(
                    x as usize,
                )) by {
                    if x == b as int {
                        assert(r@[old_r.len() as int] == b);
                    } else {
                        if r@.contains(x as usize) {
                            let t = choose|t: int| 0 <= t < r@.len() && r@[t] == x as usize;
                            assert(old_r[t] == x as usize);
                        }
                        if old_r.contains(x as usize) {
                            let t = choose|t: int| 0 <= t < old_r.len() && old_r[t] == x as usize;
                            assert(r@[t] == x as usize);
                        }
                    }
                }
            },
        }
    }
    proof {
        assert forall|x: int|
            0 <= x < keys.len() && eligible[x] && !r@.contains(x as usize) implies {
            &&& r@.len() == k
            &&& forall|i: int| 0 <= i < r@.len() ==> key_ge(keys[#[trigger] r@[i] as int], keys[x])
        } by {
            assert(!taken[x]);
        }
    }
    r
}

/// When every eligible position lies in a finite set of at most `k`
/// positions, a top-`k` list holds all of them.
pub proof fn lemma_top_k_complete(
    keys: Seq<RankKey>,
    eligible: Seq<bool>,
    k: int,
    r: Seq<usize>,
    pool: Set<int>,
)
    requires
        is_top_k(keys, eligible, k, r),
        pool.finite(),
        pool.len() <= k,
        forall|x: int| 0 <= x < keys.len() && #[trigger] eligible[x] ==> pool.contains(x),
    ensures
        forall|x: int| 0 <= x < keys.len() && #[trigger] eligible[x] ==> r.contains(x as usize),
{
    assert forall|x: int| 0 <= x < keys.len() && #[trigger] eligible[x] implies r.contains(
        x as usize,
    ) by {
        if !r.contains(x as usize) {
            let s = r.map_values(|v: usize| v as int);
            assert(s.no_duplicates()) by {
                assert forall|i: int, j: int| 0 <= i < s.len() && 0 <= j < s.len() && i != j implies s[i]
                    != s[j] by {
                    if i < j {
                        assert(r[i] != r[j]);
                    } else {
                        assert(r[j] != r[i]);
                    }
                }
            }
            s.unique_seq_to_set();
            let rest = pool.remove(x);
            assert(s.to_set().subset_of(rest)) by {
                assert forall|v: int| s.to_set().contains(v) implies rest.contains(v) by {
                    let i = choose|i: int| 0 <= i < s.len() && s[i] == v;
                    assert(eligible[r[i] as int]);
                    assert(r[i] as int == v);
                    if v == x {
                        assert(r.contains(x as usize)) by {
                            assert(r[i] == x as usize);
                        }
                    }
                }
            }
            lemma_len_subset(s.to_set(), rest);
        }
    }
}

/// A top-`k` list with `k` at least the number of keys holds every eligible
/// position.
pub proof fn lemma_top_k_all(keys: Seq<RankKey>, eligible: Seq<bool>, k: int, r: Seq<usize>)
    requires
        is_top_k(keys, eligible, k, r),
        keys.len() <= k,
    ensures
        forall|x: int| 0 <= x < keys.len() && #[trigger] eligible[x] ==> r.contains(x as usize),
{
    lemma_int_range(0, keys.len() as int);
    lemma_top_k_complete(keys, eligible, k, r, set_int_range(0, keys.len() as int));
}

/// With keys distinct at distinct positions and `k` at least the number of
/// keys, there is only one top-`k` list.
pub proof fn lemma_top_k_unique(
    keys: Seq<RankKey>,
    eligible: Seq<bool>,
    k: int,
    a: Seq<usize>,
    b: Seq<usize>,
)
    requires
        forall|x: int, y: int| 0 <= x < y < keys.len() ==> keys[x] != keys[y],
        keys.len() <= k,
        keys.len() <= usize::MAX,
        is_top_k(keys, eligible, k, a),
        is_top_k(keys, eligible, k, b),
    ensures
        a == b,
{
    lemma_top_k_all(keys, eligible, k, a);
    lemma_top_k_all(keys, eligible, k, b);
    let m = if a.len() < b.len() { a.len() as int } else { b.len() as int };
    lemma_prefix_same(keys, eligible, k, a, b, m);
    if a.len() < b.len() {
        let x = b[a.len() as int] as int;
        assert(eligible[x]);
        assert(a.contains(x as usize));
        let u = choose|u: int| 0 <= u < a.len() && a[u] == x as usize;
        assert(b[u] == a[u]);
    }
    if b.len() < a.len() {
        let x = a[b.len() as int] as int;
        assert(eligible[x]);
        assert(b.contains(x as usize));
        let u = choose|u: int| 0 <= u < b.len() && b[u] == x as usize;
        assert(a[u] == b[u]);
    }
    assert(a =~= b);
}

proof fn lemma_prefix_same(
    keys: Seq<RankKey>,
    eligible: Seq<bool>,
    k: int,
    a: Seq<usize>,
    b: Seq<usize>,
    t: int,
)
    requires
        forall|x: int, y: int| 0 <= x < y < keys.len() ==> keys[x] != keys[y],
        is_top_k(keys, eligible, k, a),
        is_top_k(keys, eligible, k, b),
        forall|x: int| 0 <= x < keys.len() && #[trigger] eligible[x] ==> a.contains(x as usize),
        forall|x: int| 0 <= x < keys.len() && #[trigger] eligible[x] ==> b.contains(x as usize),
        0 <= t <= a.len(),
        t <= b.len(),
    ensures
        forall|x: int| 0 <= x < t ==> a[x] == b[x],
    decreases t,
{
    if t > 0 {
        lemma_prefix_same(keys, eligible, k, a, b, t - 1);
        let c = t - 1;
        if a[c] != b[c] {
            let xa = a[c] as int;
            let xb = b[c] as int;
            assert(eligible[xa]);
            assert(eligible[xb]);
            assert(b.contains(xa as usize));
            assert(a.contains(xb as usize));
            let u = choose|u: int| 0 <= u < b.len() && b[u] == xa as usize;
            let v = choose|v: int| 0 <= v < a.len() && a[v] == xb as usize;
            if u < c {
                assert(a[u] == b[u]);
            }
            if v < c {
                assert(b[v] == a[v]);
            }
            assert(u > c);
            assert(v > c);
            assert(key_ge(keys[b[c] as int], keys[b[u] as int]));
            assert(key_ge(keys[a[c] as int], keys[a[v] as int]));
            if xa < xb {
                assert(keys[xa] != keys[xb]);
            } else {
                assert(keys[xb] != keys[xa]);
            }
        }
    }
}

} // verus!
