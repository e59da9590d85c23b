use vstd::prelude::*;

verus! {

/// Largest magnitude of one embedding component: vectors are unit vectors
/// quantized to thousandths.
pub const MAX_COMPONENT: i32 = 1000;

/// Largest embedding dimension a store accepts: a million components keep
/// every similarity, and a ranking score built on it, within `i64`.
pub const MAX_DIM: usize = 1_000_000;

/// Similarity of two identical embeddings, and the most any two can have.
pub const SIM_SCALE: i64 = 1_000_000;

/// Every component lies within `[-MAX_COMPONENT, MAX_COMPONENT]`.
pub open spec fn components_ok(v: Seq<i32>) -> bool {
    forall|i: int| 0 <= i < v.len() ==> -MAX_COMPONENT <= #[trigger] v[i] <= MAX_COMPONENT
}

/// Squared distance over the first `n` components.
pub open spec fn dist2_upto(a: Seq<i32>, b: Seq<i32>, n: int) -> int
    decreases n,
{
    if n <= 0 {
        0
    } else {
        dist2_upto(a, b, n - 1) + (a[n - 1] - b[n - 1]) * (a[n - 1] - b[n - 1])
    }
}

/// Similarity of two embeddings: `SIM_SCALE` less their squared Euclidean
/// distance. For unit vectors quantized to thousandths this is
/// `SIM_SCALE * (2 * cosine - 1)`, so it orders as cosine does, and it
/// reaches `SIM_SCALE` only for identical vectors.
pub open spec fn sim(a: Seq<i32>, b: Seq<i32>) -> int {
    SIM_SCALE - dist2_upto(a, b, a.len() as int)
}

/// Squared distances are never negative, and vanish only between equal
/// prefixes.
pub proof fn lemma_dist2(a: Seq<i32>, b: Seq<i32>, n: int)
    requires
        0 <= n <= a.len(),
        n <= b.len(),
    ensures
        dist2_upto(a, b, n) >= 0,
        dist2_upto(a, b, n) == 0 <==> forall|i: int| 0 <= i < n ==> a[i] == b[i],
    decreases n,
{
    if n > 0 {
        lemma_dist2(a, b, n - 1);
        let d = a[n - 1] - b[n - 1];
        assert(d * d >= 0) by (nonlinear_arith);
        assert(d != 0 ==> d * d > 0) by (nonlinear_arith);
        if dist2_upto(a, b, n) == 0 {
            assert forall|i: int| 0 <= i < n implies a[i] == b[i] by {
                if i == n - 1 {
                    assert(d == 0);
                }
            }
        }
    }
}

proof fn lemma_square_bound(x: i32, y: i32)
    requires
        -1000 <= x <= 1000,
        -1000 <= y <= 1000,
    ensures
        0 <= (x - y) * (x - y) <= 4_000_000,
{
    assert(0 <= (x - y) * (x - y) <= 4_000_000) by (nonlinear_arith)
        requires
            -2000 <= x - y <= 2000,
    ;
}

/// Similarity of two embeddings of one dimension.
pub fn similarity(a: &Vec<i32>, b: &Vec<i32>) -> (r: i64)
    requires
        a.len() == b.len(),
        a.len() <= MAX_DIM,
        components_ok(a@),
        components_ok(b@),
    ensures
        r == sim(a@, b@),
        SIM_SCALE - 4 * SIM_SCALE * (a.len() as int) <= r <= SIM_SCALE,
{
    let mut acc: i64 = 0;
    let mut i: usize = 0;
    while i < a.len()
        invariant
            a.len() == b.len(),
            a.len() <= MAX_DIM,
            components_ok(a@),
            components_ok(b@),
            i <= a.len(),
            acc == dist2_upto(a@, b@, i as int),
            0 <= acc <= 4_000_000 * (i as int),
        decreases a.len() - i,
    {
        let x = a[i];
        let y = b[i];
        proof {
            lemma_square_bound(x, y);
        }
        let d = (x as i64) - (y as i64);
        acc = acc + d * d;
        i = i + 1;
    }
    SIM_SCALE - acc
}

/// Similarity is bounded for well-formed embeddings of one dimension.
pub proof fn lemma_sim_bounds(a: Seq<i32>, b: Seq<i32>)
    requires
        a.len() == b.len(),
        a.len() <= MAX_DIM,
        components_ok(a),
        components_ok(b),
    ensures
        SIM_SCALE - 4 * SIM_SCALE * (a.len() as int) <= sim(a, b) <= SIM_SCALE,
{
    lemma_dist2_bound(a, b, a.len() as int);
}

proof fn lemma_dist2_bound(a: Seq<i32>, b: Seq<i32>, n: int)
    requires
        0 <= n <= a.len(),
        n <= b.len(),
        components_ok(a),
        components_ok(b),
    ensures
        0 <= dist2_upto(a, b, n) <= 4_000_000 * n,
    decreases n,
{
    if n > 0 {
        lemma_dist2_bound(a, b, n - 1);
        lemma_square_bound(a[n - 1], b[n - 1]);
    }
}

} // verus!
