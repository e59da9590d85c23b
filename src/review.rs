use vstd::prelude::*;
use crate::episode::{in_scope, Episode, UTILITY_NEUTRAL};
use crate::retrieval::scope_mask;
use crate::store::{episode_ok, EpisodeStore};
use crate::vector::{sim, similarity};

verus! {

/// Two episodes at least this similar are near duplicates.
pub const DEDUP_SIM: i64 = 950_000;

/// An episode never used for this many seconds after its capture is stale.
pub const STALE_AGE: u64 = 2_592_000;

/// What a review does besides reporting.
#[derive(Clone, Copy, Debug, PartialEq, Eq, Structural)]
pub enum ReviewAction {
    /// Report only.
    Analyze,
    /// Report, then delete the duplicates that are safe to lose.
    Cleanup,
}

/// What a review found and did.
pub struct ReviewReport {
    /// Each duplicate's id with the id of the episode that represents it,
    /// in order of capture.
    pub duplicates: Vec<(u64, u64)>,
    /// Ids of stale episodes, in order of capture.
    pub stale: Vec<u64>,
    /// Ids of the episodes deleted, in order of capture.
    pub deleted: Vec<u64>,
}

/// Episode `a` at position `ai` makes a better representative than `b` at
/// `bi`: higher utility, then more uses, then the earlier capture.
pub open spec fn better(a: Episode, ai: int, b: Episode, bi: int) -> bool {
    a.utility > b.utility || (a.utility == b.utility && (a.use_count > b.use_count || (a.use_count
        == b.use_count && ai < bi)))
}

/// The episodes at `a` and `b` are near duplicates.
pub open spec fn near(eps: Seq<Episode>, a: int, b: int) -> bool {
    sim(eps[a].embedding@, eps[b].embedding@) >= DEDUP_SIM
}

/// The best representative for episode `j` among itself and its near
/// duplicates in scope at positions below `n`.
pub open spec fn best_upto(eps: Seq<Episode>, filter: Option<String>, j: int, n: int) -> int
    decreases n,
{
    if n <= 0 {
        j
    } else {
        let b = best_upto(eps, filter, j, n - 1);
        let c = n - 1;
        if c != j && in_scope(eps[c].project, filter) && near(eps, c, j) && better(
            eps[c],
            c,
            eps[b],
            b,
        ) {
            c
        } else {
            b
        }
    }
}

/// The representative of episode `j`: the best of it and its near
/// duplicates in scope.
pub open spec fn representative(eps: Seq<Episode>, filter: Option<String>, j: int) -> int {
    best_upto(eps, filter, j, eps.len() as int)
}

/// Episode `j` is in scope and has a better near duplicate.
pub open spec fn is_duplicate(eps: Seq<Episode>, filter: Option<String>, j: int) -> bool {
    in_scope(eps[j].project, filter) && representative(eps, filter, j) != j
}

/// Episode `e` is in scope, has never been used, and was captured at least
/// `STALE_AGE` seconds before `now`.
pub open spec fn is_stale(e: Episode, filter: Option<String>, now: u64) -> bool {
    in_scope(e.project, filter) && e.use_count == 0 && e.created_at <= now && now - e.created_at
        >= STALE_AGE
}

/// Some other episode in scope has `j` as its representative.
pub open spec fn is_named_representative(eps: Seq<Episode>, filter: Option<String>, j: int) -> bool {
    exists|k: int|
        0 <= k < eps.len() && k != j && in_scope(eps[k].project, filter) && #[trigger] representative(
            eps,
            filter,
            k,
        ) == j
}

/// Cleanup deletes the episode at `j`: a duplicate that no episode has as
/// its representative, whose utility is at most neutral, and that was never
/// found helpful.
pub open spec fn removable(eps: Seq<Episode>, filter: Option<String>, j: int) -> bool {
    &&& is_duplicate(eps, filter, j)
    &&& !is_named_representative(eps, filter, j)
    &&& eps[j].utility <= UTILITY_NEUTRAL
    &&& eps[j].helpful_count == 0
}

/// Duplicate flags among the first `n` episodes.
pub open spec fn duplicates_upto(eps: Seq<Episode>, filter: Option<String>, n: int) -> Seq<(u64, u64)>
    decreases n,
{
    if n <= 0 {
        Seq::empty()
    } else {
        let prev = duplicates_upto(eps, filter, n - 1);
        if is_duplicate(eps, filter, n - 1) {
            prev.push((eps[n - 1].id, eps[representative(eps, filter, n - 1)].id))
        } else {
            prev
        }
    }
}

/// Stale ids among the first `n` episodes.
pub open spec fn stale_upto(eps: Seq<Episode>, filter: Option<String>, now: u64, n: int) -> Seq<u64>
    decreases n,
{
    if n <= 0 {
        Seq::empty()
    } else {
        let prev = stale_upto(eps, filter, now, n - 1);
        if is_stale(eps[n - 1], filter, now) {
            prev.push(eps[n - 1].id)
        } else {
            prev
        }
    }
}

/// Episodes among the first `n` that cleanup keeps, in order.
pub open spec fn kept_upto(eps: Seq<Episode>, filter: Option<String>, n: int) -> Seq<Episode>
    decreases n,
{
    if n <= 0 {
        Seq::empty()
    } else {
        let prev = kept_upto(eps, filter, n - 1);
        if removable(eps, filter, n - 1) {
            prev
        } else {
            prev.push(eps[n - 1])
        }
    }
}

/// Ids among the first `n` episodes that cleanup deletes, in order.
pub open spec fn removed_upto(eps: Seq<Episode>, filter: Option<String>, n: int) -> Seq<u64>
    decreases n,
{
    if n <= 0 {
        Seq::empty()
    } else {
        let prev = removed_upto(eps, filter, n - 1);
        if removable(eps, filter, n - 1) {
            prev.push(eps[n - 1].id)
        } else {
            prev
        }
    }
}

/// Duplicate flags of a whole store.
pub open spec fn duplicate_flags(eps: Seq<Episode>, filter: Option<String>) -> Seq<(u64, u64)> {
    duplicates_upto(eps, filter, eps.len() as int)
}

/// Stale ids of a whole store.
pub open spec fn stale_ids(eps: Seq<Episode>, filter: Option<String>, now: u64) -> Seq<u64> {
    stale_upto(eps, filter, now, eps.len() as int)
}

pub(crate) proof fn lemma_best_range(eps: Seq<Episode>, filter: Option<String>, j: int, n: int)
    requires
        0 <= j < eps.len(),
        n <= eps.len(),
    ensures
        0 <= best_upto(eps, filter, j, n) < eps.len(),
        best_upto(eps, filter, j, n) == j || best_upto(eps, filter, j, n) < n,
    decreases n,
{
    if n > 0 {
        lemma_best_range(eps, filter, j, n - 1);
    }
}

impl EpisodeStore {
    fn representative_of(&self, j: usize, filter: &Option<String>, scope: &Vec<bool>) -> (r: usize)
        requires
            self.wf(),
            j < self.eps().len(),
            scope@ == scope_mask(self.eps(), *filter),
        ensures
            r == representative(self.eps(), *filter, j as int),
    {
        let eps = &self.episodes;
        let mut best: usize = j;
        let mut n: usize = 0;
        while n < eps.len()
            invariant
                self.wf(),
                eps@ == self.eps(),
                j < eps.len(),
                scope@ == scope_mask(self.eps(), *filter),
                n <= eps.len(),
                best == best_upto(eps@, *filter, j as int, n as int),
            decreases eps.len() - n,
        {
            proof {
                lemma_best_range(eps@, *filter, j as int, n as int);
            }
            if n != j && scope[n] {
                assert(episode_ok(eps@[n as int], self.dim, self.next_id));
                assert(episode_ok(eps@[j as int], self.dim, self.next_id));
                let s = similarity(&eps[n].embedding, &eps[j].embedding);
                if s >= DEDUP_SIM {
                    let a = &eps[n];
                    let b = &eps[best];
                    if a.utility > b.utility || (a.utility == b.utility && (a.use_count > b.use_count
                        || (a.use_count == b.use_count && n < best))) {
                        best = n;
                    }
                }
            }
            n = n + 1;
        }
        best
    }

    fn removable_flags(&self, filter: &Option<String>) -> (r: Vec<bool>)
        requires
            self.wf(),
        ensures
            r.len() == self.eps().len(),
            forall|i: int| 0 <= i < r.len() ==> r@[i] == removable(self.eps(), *filter, i),
    {
        let scope = self.scope_flags(filter);
        let n = self.episodes.len();
        let mut reps: Vec<usize> = Vec::new();
        let mut i: usize = 0;
        while i < n
            invariant
                self.wf(),
                n == self.eps().len(),
                scope@ == scope_mask(self.eps(), *filter),
                i <= n,
                reps.len() == i,
                forall|t: int| 0 <= t < i ==> reps@[t] == representative(self.eps(), *filter, t),
            decreases n - i,
        {
            let rep = self.representative_of(i, filter, &scope);
            reps.push(rep);
            i = i + 1;
        }
        let mut r: Vec<bool> = Vec::new();
        let mut j: usize = 0;
        while j < n
            invariant
                self.wf(),
                n == self.eps().len(),
                scope@ == scope_mask(self.eps(), *filter),
                reps.len() == n,
                forall|t: int| 0 <= t < n ==> reps@[t] == representative(self.eps(), *filter, t),
                j <= n,
                r.len() == j,
                forall|t: int| 0 <= t < j ==> r@[t] == removable(self.eps(), *filter, t),
            decreases n - j,
        {
            let mut named = false;
            let mut k: usize = 0;
            while k < n
                invariant
                    n == self.eps().len(),
                    scope@ == scope_mask(self.eps(), *filter),
                    reps.len() == n,
                    forall|t: int| 0 <= t < n ==> reps@[t] == representative(self.eps(), *filter, t),
                    j < n,
                    k <= n,
                    named <==> exists|x: int|
                        0 <= x < k && x != j && in_scope(self.eps()[x].project, *filter)
                            && #[trigger] representative(self.eps(), *filter, x) == j,
                decreases n - k,
            {
                if k != j && scope[k] && reps[k] == j {
                    named = true;
                    assert(representative(self.eps(), *filter, k as int) == j);
                }
                k = k + 1;
            }
            let e = &self.episodes[j];
            r.push(scope[j] && reps[j] != j && !named && e.utility <= UTILITY_NEUTRAL && e.helpful_count == 0);
            proof {
                assert(r@[j as int] == removable(self.eps(), *filter, j as int));
            }
            j = j + 1;
        }
        r
    }

    /// Recommendations for the episodes in scope, without changing anything:
    /// each near duplicate with its representative, and the stale episodes.
    /// Nothing is deleted.
    pub fn analyze(&self, filter: &Option<String>, now: u64) -> (r: ReviewReport)
        requires
            self.wf(),
        ensures
            r.duplicates@ == duplicate_flags(self.eps(), *filter),
            r.stale@ == stale_ids(self.eps(), *filter, now),
            r.deleted@.len() == 0,
    {
        let scope = self.scope_flags(filter);
        let mut duplicates: Vec<(u64, u64)> = Vec::new();
        let mut stale: Vec<u64> = Vec::new();
        let mut i: usize = 0;
        while i < self.episodes.len()
            invariant
                self.wf(),
                scope@ == scope_mask(self.eps(), *filter),
                i <= self.episodes.len(),
                duplicates@ == duplicates_upto(self.eps(), *filter, i as int),
                stale@ == stale_upto(self.eps(), *filter, now, i as int),
            decreases self.episodes.len() - i,
        {
            let rep = self.representative_of(i, filter, &scope);
            proof {
                lemma_best_range(self.eps(), *filter, i as int, self.eps().len() as int);
            }
            let e = &self.episodes[i];
            if scope[i] && rep != i {
                duplicates.push((e.id, self.episodes[rep].id));
            }
            if scope[i] && e.use_count == 0 && e.created_at <= now && now - e.created_at >= STALE_AGE {
                stale.push(e.id);
            }
            i = i + 1;
        }
        ReviewReport { duplicates, stale, deleted: Vec::new() }
    }

    /// Reviews the episodes in scope: reports near duplicates and stale
    /// episodes and, for `Cleanup`, deletes the removable duplicates.
    pub fn review(&mut self, filter: &Option<String>, action: ReviewAction, now: u64) -> (r:
        ReviewReport)
        requires
            old(self).wf(),
        ensures
            final(self).wf(),
            final(self).spec_dim() == old(self).spec_dim(),
            final(self).spec_next_id() == old(self).spec_next_id(),
            r.duplicates@ == duplicate_flags(old(self).eps(), *filter),
            r.stale@ == stale_ids(old(self).eps(), *filter, now),
            action == ReviewAction::Analyze ==> final(self).eps() == old(self).eps() && r.deleted@.len()
                == 0,
            action == ReviewAction::Cleanup ==> final(self).eps() == kept_upto(
                old(self).eps(),
                *filter,
                old(self).eps().len() as int,
            ) && r.deleted@ == removed_upto(old(self).eps(), *filter, old(self).eps().len() as int),
    {
        let report = self.analyze(filter, now);
        match action {
            ReviewAction::Analyze => report,
            ReviewAction::Cleanup => {
                let flags = self.removable_flags(filter);
                let deleted = self.remove_flagged(&flags, filter);
                ReviewReport { duplicates: report.duplicates, stale: report.stale, deleted }
            },
        }
    }

    fn remove_flagged(&mut self, flags: &Vec<bool>, filter: &Option<String>) -> (deleted: Vec<u64>)
        requires
            old(self).wf(),
            flags.len() == old(self).eps().len(),
            forall|i: int| 0 <= i < flags.len() ==> flags@[i] == removable(old(self).eps(), *filter, i),
        ensures
            final(self).wf(),
            final(self).spec_dim() == old(self).spec_dim(),
            final(self).spec_next_id() == old(self).spec_next_id(),
            final(self).eps() == kept_upto(old(self).eps(), *filter, old(self).eps().len() as int),
            deleted@ == removed_upto(old(self).eps(), *filter, old(self).eps().len() as int),
    {
        let ghost start = self.episodes@;
        let n = self.episodes.len();
        let mut rest: Vec<Episode> = Vec::new();
        core::mem::swap(&mut self.episodes, &mut rest);
        let mut deleted: Vec<u64> = Vec::new();
        let ghost mut idx: Seq<int> = Seq::empty();
        let mut k: usize = 0;
        while k < n
            invariant
                start == old(self).eps(),
                old(self).wf(),
                self.dim == old(self).dim,
                self.next_id == old(self).next_id,
                n == start.len(),
                flags.len() == n,
                forall|i: int| 0 <= i < flags.len() ==> flags@[i] == removable(start, *filter, i),
                k <= n,
                rest@ == start.skip(k as int),
                self.episodes@ == kept_upto(start, *filter, k as int),
                deleted@ == removed_upto(start, *filter, k as int),
                idx.len() == self.episodes@.len(),
                forall|a: int| 0 <= a < idx.len() ==> 0 <= #[trigger] idx[a] < k && self.episodes@[a]
                    == start[idx[a]],
                forall|a: int, b: int| 0 <= a < b < idx.len() ==> idx[a] < idx[b],
            decreases n - k,
        {
            let ghost before = rest@;
            let e = rest.remove(0);
            assert(e == start[k as int]);
            assert(rest@ =~= start.skip(k + 1));
            if flags[k] {
                deleted.push(e.id);
            } else {
                self.episodes.push(e);
                proof {
                    idx = idx.push(k as int);
                }
            }
            k = k + 1;
        }
        assert(start.skip(n as int).len() == 0);
        proof {
            let eps = self.episodes@;
            assert forall|a: int| 0 <= a < eps.len() implies episode_ok(
                #[trigger] eps[a],
                self.dim,
                self.next_id,
            ) by {
                assert(episode_ok(start[idx[a]], self.dim, self.next_id));
            }
            assert forall|a: int, b: int| 0 <= a < b < eps.len() implies eps[a].id != eps[b].id by {
                assert(idx[a] < idx[b]);
                assert(start[idx[a]].id != start[idx[b]].id);
            }
        }
        deleted
    }
}

} // verus!
