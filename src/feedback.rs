use vstd::prelude::*;
use crate::episode::{clamp, clamp_utility, Episode};
use crate::store::{episode_ok, has_id, EpisodeStore};

verus! {

/// How far one feedback signal moves an episode's utility.
pub const FEEDBACK_STEP: i64 = 100;

/// Utility after one signal: a step up when helpful, a step down when not,
/// limited to the declared range.
pub open spec fn nudged(u: i64, helpful: bool) -> int {
    if helpful {
        clamp_utility(u + FEEDBACK_STEP)
    } else {
        clamp_utility(u - FEEDBACK_STEP)
    }
}

/// `e` after one feedback signal. The helpful count grows with a helpful
/// signal, but never past the use count.
pub open spec fn rated(e: Episode, helpful: bool) -> Episode {
    Episode {
        utility: nudged(e.utility, helpful) as i64,
        feedback_utility: nudged(e.feedback_utility, helpful) as i64,
        helpful_count: if helpful && e.helpful_count < e.use_count {
            (e.helpful_count + 1) as u64
        } else {
            e.helpful_count
        },
        ..e
    }
}

/// The episodes after a signal on the ids in `ids`.
pub open spec fn rate_all(eps: Seq<Episode>, ids: Seq<u64>, helpful: bool) -> Seq<Episode> {
    Seq::new(
        eps.len(),
        |i: int|
            if ids.contains(eps[i].id) {
                rated(eps[i], helpful)
            } else {
                eps[i]
            },
    )
}

/// How many entries of `ids` name no episode.
pub open spec fn count_missing(ids: Seq<u64>, eps: Seq<Episode>) -> nat
    decreases ids.len(),
{
    if ids.len() == 0 {
        0
    } else {
        count_missing(ids.drop_last(), eps) + if has_id(eps, ids.last()) {
            0nat
        } else {
            1nat
        }
    }
}

fn nudge(u: i64, helpful: bool) -> (r: i64)
    requires
        0 <= u <= 1000,
    ensures
        r == nudged(u, helpful),
{
    if helpful {
        clamp(u + FEEDBACK_STEP)
    } else {
        clamp(u - FEEDBACK_STEP)
    }
}

fn lists(ids: &Vec<u64>, id: u64) -> (r: bool)
    ensures
        r == ids@.contains(id),
{
    let mut i: usize = 0;
    while i < ids.len()
        invariant
            i <= ids.len(),
            forall|t: int| 0 <= t < i ==> ids@[t] != id,
        decreases ids.len() - i,
    {
        if ids[i] == id {
            assert(ids@[i as int] == id);
            return true;
        }
        i = i + 1;
    }
    false
}

impl EpisodeStore {
    /// How many of `ids` name no episode in the store.
    pub fn missing_count(&self, ids: &Vec<u64>) -> (r: usize)
        ensures
            r == count_missing(ids@, self.eps()),
    {
        let mut n: usize = 0;
        let mut i: usize = 0;
        while i < ids.len()
            invariant
                i <= ids.len(),
                n <= i,
                n == count_missing(ids@.take(i as int), self.eps()),
            decreases ids.len() - i,
        {
            assert(ids@.take(i + 1).drop_last() =~= ids@.take(i as int));
            match self.position(ids[i]) {
                Some(_) => {},
                None => {
                    n = n + 1;
                },
            }
            i = i + 1;
        }
        assert(ids@.take(ids.len() as int) =~= ids@);
        n
    }

    /// Records whether the episodes named in `ids` were helpful: each one
    /// found moves its utility a step toward the top (helpful) or bottom
    /// (not helpful) of the range. Ids with no episode are skipped; the
    /// result is how many entries were skipped.
    pub fn record_feedback(&mut self, ids: &Vec<u64>, helpful: bool) -> (skipped: usize)
        requires
            old(self).wf(),
        ensures
            final(self).wf(),
            final(self).spec_dim() == old(self).spec_dim(),
            final(self).spec_next_id() == old(self).spec_next_id(),
            final(self).eps() == rate_all(old(self).eps(), ids@, helpful),
            skipped == count_missing(ids@, old(self).eps()),
    {
        let skipped = self.missing_count(ids);
        let ghost start = self.episodes@;
        let mut i: usize = 0;
        while i < self.episodes.len()
            invariant
                start == old(self).eps(),
                self.dim == old(self).dim,
                self.next_id == old(self).next_id,
                self.wf(),
                self.episodes@.len() == start.len(),
                i <= self.episodes.len(),
                forall|t: int|
                    0 <= t < start.len() ==> #[trigger] self.episodes@[t] == if t < i {
                        rate_all(start, ids@, helpful)[t]
                    } else {
                        start[t]
                    },
            decreases self.episodes.len() - i,
        {
            let ghost before = self.episodes@;
            if lists(ids, self.episodes[i].id) {
                assert(episode_ok(before[i as int], self.dim, self.next_id));
                let u = nudge(self.episodes[i].utility, helpful);
                let f = nudge(self.episodes[i].feedback_utility, helpful);
                self.episodes[i].utility = u;
                self.episodes[i].feedback_utility = f;
                if helpful && self.episodes[i].helpful_count < self.episodes[i].use_count {
                    self.episodes[i].helpful_count = self.episodes[i].helpful_count + 1;
                }
            }
            assert forall|a: int| 0 <= a < self.episodes@.len() implies episode_ok(
                #[trigger] self.episodes@[a],
                self.dim,
                self.next_id,
            ) by {
                assert(episode_ok(before[a], self.dim, self.next_id));
            }
            assert forall|a: int, b: int|
                0 <= a < b < self.episodes@.len() implies self.episodes@[a].id
                != self.episodes@[b].id by {
                assert(before[a].id != before[b].id);
            }
            i = i + 1;
        }
        assert(self.episodes@ =~= rate_all(start, ids@, helpful));
        skipped
    }
}

} // verus!
