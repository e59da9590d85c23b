use vstd::prelude::*;
use crate::episode::{in_scope, Episode};
use crate::retrieval::scope_mask;
use crate::store::{episode_ok, EpisodeStore};

verus! {

/// Aggregate figures over the episodes in scope.
#[derive(Clone, Copy, Debug, PartialEq, Eq, Structural)]
pub struct Stats {
    pub episode_count: u64,
    /// Mean utility, rounded down; `None` with no episode in scope.
    pub avg_utility: Option<i64>,
    /// Latest capture time; `None` with no episode in scope.
    pub last_capture_at: Option<u64>,
    /// Episodes never returned by retrieval.
    pub unused_count: u64,
}

/// Episodes in scope among the first `n`.
pub open spec fn count_upto(eps: Seq<Episode>, filter: Option<String>, n: int) -> nat
    decreases n,
{
    if n <= 0 {
        0
    } else {
        count_upto(eps, filter, n - 1) + if in_scope(eps[n - 1].project, filter) {
            1nat
        } else {
            0nat
        }
    }
}

/// Summed utility of the episodes in scope among the first `n`.
pub open spec fn utility_upto(eps: Seq<Episode>, filter: Option<String>, n: int) -> int
    decreases n,
{
    if n <= 0 {
        0
    } else {
        utility_upto(eps, filter, n - 1) + if in_scope(eps[n - 1].project, filter) {
            eps[n - 1].utility as int
        } else {
            0
        }
    }
}

/// Unused episodes in scope among the first `n`.
pub open spec fn unused_upto(eps: Seq<Episode>, filter: Option<String>, n: int) -> nat
    decreases n,
{
    if n <= 0 {
        0
    } else {
        unused_upto(eps, filter, n - 1) + if in_scope(eps[n - 1].project, filter)
            && eps[n - 1].use_count == 0 {
            1nat
        } else {
            0nat
        }
    }
}

/// Latest capture time in scope among the first `n`.
pub open spec fn last_capture_upto(eps: Seq<Episode>, filter: Option<String>, n: int) -> Option<u64>
    decreases n,
{
    if n <= 0 {
        None
    } else {
        let prev = last_capture_upto(eps, filter, n - 1);
        if in_scope(eps[n - 1].project, filter) {
            match prev {
                Some(t) => if eps[n - 1].created_at > t {
                    Some(eps[n - 1].created_at)
                } else {
                    Some(t)
                },
                None => Some(eps[n - 1].created_at),
            }
        } else {
            prev
        }
    }
}

/// The figures for a whole store.
pub open spec fn stats_of(eps: Seq<Episode>, filter: Option<String>) -> Stats {
    let n = eps.len() as int;
    let count = count_upto(eps, filter, n);
    Stats {
        episode_count: count as u64,
        avg_utility: if count == 0 {
            None
        } else {
            Some((utility_upto(eps, filter, n) / (count as int)) as i64)
        },
        last_capture_at: last_capture_upto(eps, filter, n),
        unused_count: unused_upto(eps, filter, n) as u64,
    }
}

impl EpisodeStore {
    /// Counts, mean utility, latest capture and unused episodes in scope.
    pub fn stats(&self, filter: &Option<String>) -> (r: Stats)
        requires
            self.wf(),
        ensures
            r == stats_of(self.eps(), *filter),
    {
        let scope = self.scope_flags(filter);
        let n = self.episodes.len();
        let mut count: u64 = 0;
        let mut unused: u64 = 0;
        let mut sum: u128 = 0;
        let mut last: Option<u64> = None;
        let mut i: usize = 0;
        while i < n
            invariant
                self.wf(),
                n == self.eps().len(),
                scope@ == scope_mask(self.eps(), *filter),
                i <= n,
                count == count_upto(self.eps(), *filter, i as int),
                count <= i,
                unused == unused_upto(self.eps(), *filter, i as int),
                unused <= i,
                sum == utility_upto(self.eps(), *filter, i as int),
                0 <= sum <= 1000 * (i as int),
                last == last_capture_upto(self.eps(), *filter, i as int),
            decreases n - i,
        {
            let e = &self.episodes[i];
            assert(episode_ok(self.episodes@[i as int], self.dim, self.next_id));
            if scope[i] {
                count = count + 1;
                sum = sum + (e.utility as u128);
                if e.use_count == 0 {
                    unused = unused + 1;
                }
                last = match last {
                    Some(t) => if e.created_at > t {
                        Some(e.created_at)
                    } else {
                        Some(t)
                    },
                    None => Some(e.created_at),
                };
            }
            i = i + 1;
        }
        let avg = if count == 0 {
            None
        } else {
            assert(sum / (count as u128) <= sum) by (nonlinear_arith)
                requires
                    count > 0,
                    sum >= 0,
            ;
            Some((sum / (count as u128)) as i64)
        };
        Stats { episode_count: count, avg_utility: avg, last_capture_at: last, unused_count: unused }
    }
}

} // verus!
