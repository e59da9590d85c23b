use vstd::prelude::*;
use crate::episode::{clamp, clamp_utility, in_scope, Episode, Outcome, UTILITY_NEUTRAL};
use crate::retrieval::scope_mask;
use crate::store::{episode_ok, with_utility, EpisodeStore};
use crate::vector::{sim, similarity, SIM_SCALE};

verus! {

/// Neighbours less similar than this receive nothing.
pub const PROPAGATE_MIN_SIM: i64 = 700_000;

/// Percentage of a rated episode's deviation from neutral shared out among
/// its neighbours in one pass.
pub const SHARE_PERCENT: i64 = 50;

/// Largest total adjustment an episode can receive in one pass.
pub const MAX_BONUS: i64 = 200;

/// How many seconds before an outcome an episode counts as leading to it.
pub const TEMPORAL_WINDOW: u64 = 3600;

/// Adjustment for leading to a success (added) or a failure (subtracted).
pub const TEMPORAL_BONUS: i64 = 20;

/// Two optional projects are the same project.
pub open spec fn same_project(a: Option<String>, b: Option<String>) -> bool {
    match (a, b) {
        (None, None) => true,
        (Some(x), Some(y)) => x@ == y@,
        _ => false,
    }
}

/// Episode `i` is in scope, differs from `s`, and is similar enough to it
/// to receive a share of its credit.
pub open spec fn within_reach(eps: Seq<Episode>, filter: Option<String>, s: int, i: int) -> bool {
    &&& s != i
    &&& in_scope(eps[i].project, filter)
    &&& sim(eps[s].embedding@, eps[i].embedding@) >= PROPAGATE_MIN_SIM
}

/// Episode `s` sends similarity credit to episode `i`: `s` is in scope and
/// rated away from neutral, and `i` is within its reach.
pub open spec fn sim_source(eps: Seq<Episode>, filter: Option<String>, s: int, i: int) -> bool {
    &&& 0 <= s < eps.len()
    &&& in_scope(eps[s].project, filter)
    &&& eps[s].feedback_utility != UTILITY_NEUTRAL
    &&& within_reach(eps, filter, s, i)
}

/// Episode `s` sends temporal credit to episode `i`: both are in scope,
/// `s` ended in success or failure, and `i`, of the same project, was
/// captured at most `TEMPORAL_WINDOW` seconds before it.
pub open spec fn time_source(eps: Seq<Episode>, filter: Option<String>, s: int, i: int) -> bool {
    &&& 0 <= s < eps.len()
    &&& s != i
    &&& in_scope(eps[s].project, filter)
    &&& in_scope(eps[i].project, filter)
    &&& eps[s].outcome != Outcome::Partial
    &&& same_project(eps[i].project, eps[s].project)
    &&& eps[i].created_at <= eps[s].created_at
    &&& eps[s].created_at - eps[i].created_at <= TEMPORAL_WINDOW
}

/// How many of the first `n` episodes are within reach of `s`.
pub open spec fn reach_upto(eps: Seq<Episode>, filter: Option<String>, s: int, n: int) -> nat
    decreases n,
{
    if n <= 0 {
        0
    } else {
        reach_upto(eps, filter, s, n - 1) + if within_reach(eps, filter, s, n - 1) {
            1nat
        } else {
            0nat
        }
    }
}

/// How many episodes are within reach of `s`.
pub open spec fn reach(eps: Seq<Episode>, filter: Option<String>, s: int) -> nat {
    reach_upto(eps, filter, s, eps.len() as int)
}

/// Credit that a deviation from neutral of `dev` sends to one of `m`
/// episodes within reach at similarity `s`: `SHARE_PERCENT` of the
/// deviation, scaled by the similarity (at most 1) and split `m` ways,
/// rounded toward zero.
pub open spec fn share_of(dev: int, s: int, m: int) -> int {
    if dev == 0 || m <= 0 || s < 0 {
        0
    } else {
        let w = if s > SIM_SCALE { SIM_SCALE as int } else { s };
        let mag = if dev > 0 { dev } else { -dev };
        let q = (mag * SHARE_PERCENT * w) / (100 * SIM_SCALE * m);
        if dev > 0 { q } else { -q }
    }
}

/// `b` limited to `[-MAX_BONUS, MAX_BONUS]`.
pub open spec fn clamp_credit(b: int) -> int {
    if b > MAX_BONUS {
        MAX_BONUS as int
    } else if b < -MAX_BONUS {
        -MAX_BONUS as int
    } else {
        b
    }
}

/// Credit `b` of episode `i` after similarity credit from `s`.
pub open spec fn after_sim(eps: Seq<Episode>, filter: Option<String>, s: int, i: int, b: int) -> int {
    if sim_source(eps, filter, s, i) {
        clamp_credit(
            b + share_of(
                eps[s].feedback_utility - UTILITY_NEUTRAL,
                sim(eps[s].embedding@, eps[i].embedding@),
                reach(eps, filter, s) as int,
            ),
        )
    } else {
        b
    }
}

/// Credit `b` of episode `i` after temporal credit from `s`.
pub open spec fn after_time(
    eps: Seq<Episode>,
    filter: Option<String>,
    temporal: bool,
    s: int,
    i: int,
    b: int,
) -> int {
    if temporal && time_source(eps, filter, s, i) {
        clamp_credit(
            b + if eps[s].outcome == Outcome::Success {
                TEMPORAL_BONUS as int
            } else {
                -TEMPORAL_BONUS as int
            },
        )
    } else {
        b
    }
}

/// Credit episode `i` has received from the first `n` episodes, taken in
/// order of capture and limited to `[-MAX_BONUS, MAX_BONUS]` after each.
pub open spec fn credit_upto(eps: Seq<Episode>, filter: Option<String>, temporal: bool, i: int, n: int) -> int
    decreases n,
{
    if n <= 0 {
        0
    } else {
        let b = credit_upto(eps, filter, temporal, i, n - 1);
        after_time(eps, filter, temporal, n - 1, i, after_sim(eps, filter, n - 1, i, b))
    }
}

/// Credit episode `i` receives in one pass.
pub open spec fn credit(eps: Seq<Episode>, filter: Option<String>, temporal: bool, i: int) -> int {
    credit_upto(eps, filter, temporal, i, eps.len() as int)
}

/// How many episodes changed utility between `old` and `new`, among the
/// first `n`.
pub open spec fn count_changed(old: Seq<Episode>, new: Seq<Episode>, n: int) -> nat
    decreases n,
{
    if n <= 0 {
        0
    } else {
        count_changed(old, new, n - 1) + if old[n - 1].utility != new[n - 1].utility {
            1nat
        } else {
            0nat
        }
    }
}

/// `new` is the store `old` after one propagation pass: each episode in
/// scope gets its feedback utility plus the credit it receives, limited to
/// the declared range; nothing else changes.
pub open spec fn propagation_step(
    old: Seq<Episode>,
    new: Seq<Episode>,
    filter: Option<String>,
    temporal: bool,
) -> bool {
    &&& new.len() == old.len()
    &&& forall|i: int|
        0 <= i < old.len() ==> #[trigger] new[i] == if in_scope(old[i].project, filter) {
            with_utility(
                old[i],
                clamp_utility(old[i].feedback_utility + credit(old, filter, temporal, i)) as i64,
            )
        } else {
            old[i]
        }
}

fn clamp_bonus(b: i64) -> (r: i64)
    ensures
        r == clamp_credit(b as int),
{
    if b > MAX_BONUS {
        MAX_BONUS
    } else if b < -MAX_BONUS {
        -MAX_BONUS
    } else {
        b
    }
}

fn share(dev: i64, s: i64, m: usize) -> (r: i64)
    requires
        -1000 <= dev <= 1000,
    ensures
        r == share_of(dev as int, s as int, m as int),
        -1000 <= r <= 1000,
{
    if dev == 0 || m == 0 || s < 0 {
        return 0;
    }
    let w: u128 = if s > SIM_SCALE { SIM_SCALE as u128 } else { s as u128 };
    let mag: u128 = if dev > 0 { dev as u128 } else { (-dev) as u128 };
    assert(mag * 50 * w <= 1000 * 50 * 1_000_000) by (nonlinear_arith)
        requires
            0 <= mag <= 1000,
            0 <= w <= 1_000_000,
    ;
    assert(100_000_000 <= 100_000_000 * (m as int) <= 100_000_000 * 0x1_0000_0000_0000_0000) by (nonlinear_arith)
        requires
            1 <= m <= usize::MAX,
            usize::MAX < 0x1_0000_0000_0000_0000,
    ;
    let num: u128 = mag * 50 * w;
    let den: u128 = 100_000_000 * (m as u128);
    assert(num / den <= 1000) by (nonlinear_arith)
        requires
            num <= 1000 * 50 * 1_000_000,
            den >= 100_000_000,
    ;
    let q = (num / den) as i64;
    if dev > 0 {
        q
    } else {
        -q
    }
}

fn same_project_of(a: &Option<String>, b: &Option<String>) -> (r: bool)
    ensures
        r == same_project(*a, *b),
{
    match (a, b) {
        (None, None) => true,
        (Some(x), Some(y)) => *x == *y,
        _ => false,
    }
}

proof fn lemma_count_changed_prefix(old: Seq<Episode>, a: Seq<Episode>, b: Seq<Episode>, t: int, i: int)
    requires
        0 <= t <= i,
        i <= a.len(),
        i <= b.len(),
        t <= old.len(),
        forall|x: int| 0 <= x < i ==> a[x] == b[x],
    ensures
        count_changed(old, a, t) == count_changed(old, b, t),
    decreases t,
{
    if t > 0 {
        lemma_count_changed_prefix(old, a, b, t - 1, i);
    }
}

/// Credit stays within `[-MAX_BONUS, MAX_BONUS]`.
pub proof fn lemma_credit_bounded(eps: Seq<Episode>, filter: Option<String>, temporal: bool, i: int, n: int)
    ensures
        -MAX_BONUS <= credit_upto(eps, filter, temporal, i, n) <= MAX_BONUS,
    decreases n,
{
    if n > 0 {
        lemma_credit_bounded(eps, filter, temporal, i, n - 1);
    }
}

impl EpisodeStore {
    /// How many episodes are within reach of `s`.
    fn reach_of(&self, s: usize, filter: &Option<String>, scope: &Vec<bool>) -> (m: usize)
        requires
            self.wf(),
            s < self.eps().len(),
            scope@ == scope_mask(self.eps(), *filter),
        ensures
            m == reach(self.eps(), *filter, s as int),
    {
        let eps = &self.episodes;
        let mut m: usize = 0;
        let mut p: usize = 0;
        while p < eps.len()
            invariant
                self.wf(),
                eps@ == self.eps(),
                s < eps@.len(),
                scope@ == scope_mask(self.eps(), *filter),
                p <= eps.len(),
                m <= p,
                m == reach_upto(eps@, *filter, s as int, p as int),
            decreases eps.len() - p,
        {
            if p != s && scope[p] {
                assert(episode_ok(eps@[p as int], self.dim, self.next_id));
                assert(episode_ok(eps@[s as int], self.dim, self.next_id));
                if similarity(&eps[s].embedding, &eps[p].embedding) >= PROPAGATE_MIN_SIM {
                    m = m + 1;
                }
            }
            p = p + 1;
        }
        m
    }

    /// Applies the credit episode `s` sends, by similarity and by time.
    fn credit_from(
        &self,
        s: usize,
        filter: &Option<String>,
        temporal: bool,
        scope: &Vec<bool>,
        bonus: &mut Vec<i64>,
    )
        requires
            self.wf(),
            s < self.eps().len(),
            scope@ == scope_mask(self.eps(), *filter),
            old(bonus).len() == self.eps().len(),
            forall|i: int|
                0 <= i < old(bonus).len() ==> #[trigger] old(bonus)@[i] == credit_upto(
                    self.eps(),
                    *filter,
                    temporal,
                    i,
                    s as int,
                ),
        ensures
            final(bonus).len() == self.eps().len(),
            forall|i: int|
                0 <= i < final(bonus).len() ==> #[trigger] final(bonus)@[i] == credit_upto(
                    self.eps(),
                    *filter,
                    temporal,
                    i,
                    s + 1,
                ),
    {
        let eps = &self.episodes;
        let n = eps.len();
        let src = &eps[s];
        assert(episode_ok(eps@[s as int], self.dim, self.next_id));
        let active = scope[s] && src.feedback_utility != UTILITY_NEUTRAL;
        let m = if active { self.reach_of(s, filter, scope) } else { 0 };
        let dev = src.feedback_utility - UTILITY_NEUTRAL;
        let mut p: usize = 0;
        while p < n
            invariant
                self.wf(),
                eps@ == self.eps(),
                n == eps@.len(),
                s < n,
                src == eps@[s as int],
                scope@ == scope_mask(self.eps(), *filter),
                active == (in_scope(src.project, *filter) && src.feedback_utility != UTILITY_NEUTRAL),
                active ==> m == reach(eps@, *filter, s as int),
                dev == src.feedback_utility - UTILITY_NEUTRAL,
                -1000 <= dev <= 1000,
                p <= n,
                bonus.len() == n,
                forall|i: int|
                    0 <= i < n ==> #[trigger] bonus@[i] == if i < p {
                        after_time(
                            eps@,
                            *filter,
                            temporal,
                            s as int,
                            i,
                            after_sim(eps@, *filter, s as int, i, credit_upto(eps@, *filter, temporal, i, s as int)),
                        )
                    } else {
                        credit_upto(eps@, *filter, temporal, i, s as int)
                    },
            decreases n - p,
        {
            let ghost before = bonus@;
            proof {
                lemma_credit_bounded(eps@, *filter, temporal, p as int, s as int);
            }
            let mut b = bonus[p];
            if active && p != s && scope[p] {
                assert(episode_ok(eps@[p as int], self.dim, self.next_id));
                let sv = similarity(&eps[s].embedding, &eps[p].embedding);
                if sv >= PROPAGATE_MIN_SIM {
                    b = clamp_bonus(b + share(dev, sv, m));
                }
            }
            let e = &eps[p];
            if temporal && scope[s] && p != s && scope[p] && same_project_of(&e.project, &src.project)
                && e.created_at <= src.created_at && src.created_at - e.created_at <= TEMPORAL_WINDOW {
                match src.outcome {
                    Outcome::Success => {
                        b = clamp_bonus(b + TEMPORAL_BONUS);
                    },
                    Outcome::Failure => {
                        b = clamp_bonus(b - TEMPORAL_BONUS);
                    },
                    Outcome::Partial => {},
                }
            }
            bonus.set(p, b);
            assert forall|i: int| 0 <= i < n && i != p implies bonus@[i] == before[i] by {}
            p = p + 1;
        }
    }

    /// One propagation pass over the episodes in scope. Each episode rated
    /// away from neutral shares `SHARE_PERCENT` of its deviation among the
    /// episodes within its reach, weighted by similarity; with `temporal`,
    /// each success or failure also credits or debits by `TEMPORAL_BONUS`
    /// the episodes of its project captured up to `TEMPORAL_WINDOW` seconds
    /// before it. Each episode's utility becomes its feedback utility plus
    /// its credit, so influence that no feedback supports fades at once and
    /// a second pass changes nothing. Returns how many episodes changed
    /// utility.
    pub fn propagate(&mut self, temporal: bool, filter: &Option<String>) -> (adjusted: usize)
        requires
            old(self).wf(),
        ensures
            final(self).wf(),
            final(self).spec_dim() == old(self).spec_dim(),
            final(self).spec_next_id() == old(self).spec_next_id(),
            propagation_step(old(self).eps(), final(self).eps(), *filter, temporal),
            adjusted == count_changed(old(self).eps(), final(self).eps(), old(self).eps().len() as int),
    {
        let n = self.episodes.len();
        let scope = self.scope_flags(filter);
        let mut bonus: Vec<i64> = vec![0i64; n];
        let mut s: usize = 0;
        while s < n
            invariant
                self.wf(),
                n == self.eps().len(),
                scope@ == scope_mask(self.eps(), *filter),
                s <= n,
                bonus.len() == n,
                forall|i: int|
                    0 <= i < n ==> #[trigger] bonus@[i] == credit_upto(self.eps(), *filter, temporal, i, s as int),
            decreases n - s,
        {
            self.credit_from(s, filter, temporal, &scope, &mut bonus);
            s = s + 1;
        }
        let ghost start = self.episodes@;
        let mut adjusted: usize = 0;
        let mut i: usize = 0;
        while i < n
            invariant
                old(self).wf(),
                start == old(self).eps(),
                self.dim == old(self).dim,
                self.next_id == old(self).next_id,
                self.wf(),
                n == start.len(),
                self.episodes@.len() == n,
                scope@ == scope_mask(start, *filter),
                bonus.len() == n,
                forall|t: int| 0 <= t < n ==> #[trigger] bonus@[t] == credit(start, *filter, temporal, t),
                i <= n,
                adjusted <= i,
                adjusted == count_changed(start, self.episodes@, i as int),
                forall|t: int| i <= t < n ==> #[trigger] self.episodes@[t] == start[t],
                forall|t: int|
                    0 <= t < i ==> #[trigger] self.episodes@[t] == if in_scope(start[t].project, *filter) {
                        with_utility(
                            start[t],
                            clamp_utility(start[t].feedback_utility + credit(start, *filter, temporal, t)) as i64,
                        )
                    } else {
                        start[t]
                    },
            decreases n - i,
        {
            let ghost before = self.episodes@;
            assert(episode_ok(start[i as int], self.dim, self.next_id));
            proof {
                lemma_credit_bounded(start, *filter, temporal, i as int, n as int);
            }
            if scope[i] {
                let u = clamp(self.episodes[i].feedback_utility + bonus[i]);
                if u != self.episodes[i].utility {
                    adjusted = adjusted + 1;
                }
                self.episodes[i].utility = u;
            }
            assert(count_changed(start, self.episodes@, i as int) == count_changed(start, before, i as int)) by {
                lemma_count_changed_prefix(start, self.episodes@, before, i as int, i as int);
            }
            assert forall|a: int| 0 <= a < self.episodes@.len() implies episode_ok(
                #[trigger] self.episodes@[a],
                self.dim,
                self.next_id,
            ) by {
                assert(episode_ok(before[a], self.dim, self.next_id));
            }
            assert forall|a: int, b: int|
                0 <= a < b < self.episodes@.len() implies self.episodes@[a].id
                != self.episodes@[b].id by {
                assert(before[a].id != before[b].id);
            }
            i = i + 1;
        }
        adjusted
    }
}

} // verus!
