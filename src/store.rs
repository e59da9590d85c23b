use vstd::prelude::*;
use crate::episode::{
    utility_ok, Episode, Invalid, NewEpisode, StoreError, UTILITY_NEUTRAL, clamp, clamp_utility,
};
use crate::vector::{components_ok, MAX_COMPONENT, MAX_DIM};

verus! {

/// The durable table of episodes: every episode with its embedding, in
/// order of capture.
pub struct EpisodeStore {
    pub(crate) episodes: Vec<Episode>,
    pub(crate) dim: usize,
    pub(crate) next_id: u64,
}

/// The episode at `i` keeps the store's rules: its embedding has the store's
/// dimension and bounded components, its utilities lie within range, and it
/// was found helpful no more often than it was used.
pub open spec fn episode_ok(e: Episode, dim: usize, next_id: u64) -> bool {
    &&& e.embedding.len() == dim
    &&& components_ok(e.embedding@)
    &&& utility_ok(e.utility as int)
    &&& utility_ok(e.feedback_utility as int)
    &&& e.helpful_count <= e.use_count
    &&& e.id < next_id
}

/// No two episodes share an id.
pub open spec fn ids_unique(eps: Seq<Episode>) -> bool {
    forall|i: int, j: int| 0 <= i < j < eps.len() ==> eps[i].id != eps[j].id
}

/// Some episode has id `id`.
pub open spec fn has_id(eps: Seq<Episode>, id: u64) -> bool {
    exists|i: int| 0 <= i < eps.len() && #[trigger] eps[i].id == id
}

/// Why `draft` cannot enter a store of dimension `dim` with next id
/// `next_id`, checked in this order; `None` when it can.
pub open spec fn capture_error(draft: NewEpisode, dim: usize, next_id: u64) -> Option<StoreError> {
    if draft.summary@.len() == 0 {
        Some(StoreError::Validation(Invalid::EmptySummary))
    } else if draft.embedding.len() != dim {
        Some(StoreError::DimensionMismatch { expected: dim, found: draft.embedding.len() })
    } else if !components_ok(draft.embedding@) {
        Some(StoreError::Validation(Invalid::ComponentOutOfRange))
    } else if next_id == u64::MAX {
        Some(StoreError::StoreFull)
    } else {
        None
    }
}

/// The episode that capturing `draft` at time `now` under id `id` creates.
pub open spec fn captured(draft: NewEpisode, id: u64, now: u64) -> Episode {
    Episode {
        id,
        summary: draft.summary,
        task_type: draft.task_type,
        outcome: draft.outcome,
        project: draft.project,
        files_modified: draft.files_modified,
        tags: draft.tags,
        errors_resolved: draft.errors_resolved,
        embedding: draft.embedding,
        utility: UTILITY_NEUTRAL,
        feedback_utility: UTILITY_NEUTRAL,
        use_count: 0,
        helpful_count: 0,
        created_at: now,
        last_used_at: now,
    }
}

/// `e` with only its utility changed, to `u`.
pub open spec fn with_utility(e: Episode, u: i64) -> Episode {
    Episode { utility: u, ..e }
}

fn check_components(v: &Vec<i32>) -> (r: bool)
    ensures
        r == components_ok(v@),
{
    let mut i: usize = 0;
    while i < v.len()
        invariant
            i <= v.len(),
            components_ok(v@.subrange(0, i as int)),
        decreases v.len() - i,
    {
        if v[i] < -MAX_COMPONENT || v[i] > MAX_COMPONENT {
            assert(!components_ok(v@)) by {
                assert(!(-MAX_COMPONENT <= v@[i as int] <= MAX_COMPONENT));
            }
            return false;
        }
        assert(components_ok(v@.subrange(0, i + 1))) by {
            assert forall|t: int| 0 <= t < i + 1 implies -MAX_COMPONENT <= #[trigger] v@.subrange(
                0,
                i + 1,
            )[t] <= MAX_COMPONENT by {
                if t < i {
                    assert(v@.subrange(0, i + 1)[t] == v@.subrange(0, i as int)[t]);
                }
            }
        }
        i = i + 1;
    }
    assert(v@.subrange(0, i as int) =~= v@);
    true
}

/// Tells whether `v` can stand as an embedding in a store of dimension `dim`.
pub fn embedding_fits(v: &Vec<i32>, dim: usize) -> (r: Result<(), StoreError>)
    ensures
        r is Ok <==> (v.len() == dim && components_ok(v@)),
        v.len() != dim ==> r == Err::<(), StoreError>(
            StoreError::DimensionMismatch { expected: dim, found: v.len() },
        ),
        v.len() == dim && !components_ok(v@) ==> r == Err::<(), StoreError>(
            StoreError::Validation(Invalid::ComponentOutOfRange),
        ),
{
    if v.len() != dim {
        Err(StoreError::DimensionMismatch { expected: dim, found: v.len() })
    } else if !check_components(v) {
        Err(StoreError::Validation(Invalid::ComponentOutOfRange))
    } else {
        Ok(())
    }
}

impl EpisodeStore {
    /// The store's rules: a bounded dimension, unique ids below the next id,
    /// and every episode well formed.
    pub open(crate) spec fn wf(&self) -> bool {
        &&& self.dim <= MAX_DIM
        &&& ids_unique(self.episodes@)
        &&& forall|i: int|
            0 <= i < self.episodes@.len() ==> episode_ok(
                #[trigger] self.episodes@[i],
                self.dim,
                self.next_id,
            )
    }

    /// The episodes, in order of capture.
    pub open(crate) spec fn eps(&self) -> Seq<Episode> {
        self.episodes@
    }

    /// The dimension every embedding in the store has.
    pub open(crate) spec fn spec_dim(&self) -> usize {
        self.dim
    }

    /// The id the next capture receives.
    pub open(crate) spec fn spec_next_id(&self) -> u64 {
        self.next_id
    }

    /// An empty store whose embeddings have dimension `dim`.
    pub fn new(dim: usize) -> (r: EpisodeStore)
        requires
            dim <= MAX_DIM,
        ensures
            r.wf(),
            r.eps().len() == 0,
            r.spec_dim() == dim,
            r.spec_next_id() == 0,
    {
        EpisodeStore { episodes: Vec::new(), dim, next_id: 0 }
    }

    /// The episodes, in order of capture.
    pub fn episodes(&self) -> (r: &Vec<Episode>)
        ensures
            r@ == self.eps(),
    {
        &self.episodes
    }

    /// The dimension every embedding in the store has.
    pub fn dim(&self) -> (r: usize)
        ensures
            r == self.spec_dim(),
    {
        self.dim
    }

    /// How many episodes the store holds.
    pub fn len(&self) -> (r: usize)
        ensures
            r == self.eps().len(),
    {
        self.episodes.len()
    }

    /// Position of the episode with id `id`.
    pub fn position(&self, id: u64) -> (r: Option<usize>)
        ensures
            match r {
                Some(i) => i < self.eps().len() && self.eps()[i as int].id == id,
                None => !has_id(self.eps(), id),
            },
    {
        let mut i: usize = 0;
        while i < self.episodes.len()
            invariant
                i <= self.episodes.len(),
                forall|t: int| 0 <= t < i ==> #[trigger] self.episodes@[t].id != id,
            decreases self.episodes.len() - i,
        {
            if self.episodes[i].id == id {
                return Some(i);
            }
            i = i + 1;
        }
        None
    }

    /// The episode with id `id`.
    pub fn get(&self, id: u64) -> (r: Result<&Episode, StoreError>)
        ensures
            match r {
                Ok(e) => exists|i: int|
                    0 <= i < self.eps().len() && #[trigger] self.eps()[i] == *e && e.id == id,
                Err(err) => !has_id(self.eps(), id) && err == StoreError::NotFound(id),
            },
    {
        match self.position(id) {
            Some(i) => Ok(&self.episodes[i]),
            None => Err(StoreError::NotFound(id)),
        }
    }

    /// Stores a new episode captured at time `now`, under a fresh id, with
    /// neutral utility and no uses.
    pub fn insert(&mut self, draft: NewEpisode, now: u64) -> (r: Result<u64, StoreError>)
        requires
            old(self).wf(),
        ensures
            final(self).wf(),
            final(self).spec_dim() == old(self).spec_dim(),
            match capture_error(draft, old(self).spec_dim(), old(self).spec_next_id()) {
                Some(e) => r == Err::<u64, StoreError>(e) && final(self).eps() == old(self).eps(),
                None => r == Ok::<u64, StoreError>(old(self).spec_next_id()) && final(self).eps()
                    == old(self).eps().push(captured(draft, old(self).spec_next_id(), now))
                    && !has_id(old(self).eps(), old(self).spec_next_id()),
            },
    {
        if draft.summary.as_str().is_empty() {
            return Err(StoreError::Validation(Invalid::EmptySummary));
        }
        match embedding_fits(&draft.embedding, self.dim) {
            Err(e) => {
                return Err(e);
            },
            Ok(()) => {},
        }
        if self.next_id == u64::MAX {
            return Err(StoreError::StoreFull);
        }
        let id = self.next_id;
        let ghost old_eps = self.episodes@;
        let e = Episode {
            id,
            summary: draft.summary,
            task_type: draft.task_type,
            outcome: draft.outcome,
            project: draft.project,
            files_modified: draft.files_modified,
            tags: draft.tags,
            errors_resolved: draft.errors_resolved,
            embedding: draft.embedding,
            utility: UTILITY_NEUTRAL,
            feedback_utility: UTILITY_NEUTRAL,
            use_count: 0,
            helpful_count: 0,
            created_at: now,
            last_used_at: now,
        };
        self.episodes.push(e);
        self.next_id = id + 1;
        assert(!has_id(old_eps, id)) by {
            if has_id(old_eps, id) {
                let i = choose|i: int| 0 <= i < old_eps.len() && #[trigger] old_eps[i].id == id;
                assert(episode_ok(old_eps[i], self.dim, id));
            }
        }
        assert forall|i: int| 0 <= i < self.episodes@.len() implies episode_ok(
            #[trigger] self.episodes@[i],
            self.dim,
            self.next_id,
        ) by {
            if i < old_eps.len() {
                assert(self.episodes@[i] == old_eps[i]);
                assert(episode_ok(old_eps[i], self.dim, id));
            }
        }
        Ok(id)
    }

    /// Removes the episode with id `id`, keeping the order of the others.
    pub fn delete(&mut self, id: u64) -> (r: Result<(), StoreError>)
        requires
            old(self).wf(),
        ensures
            final(self).wf(),
            final(self).spec_dim() == old(self).spec_dim(),
            has_id(old(self).eps(), id) <==> r is Ok,
            r is Err ==> r == Err::<(), StoreError>(StoreError::NotFound(id)) && final(self).eps()
                == old(self).eps(),
            r is Ok ==> exists|i: int|
                0 <= i < old(self).eps().len() && #[trigger] old(self).eps()[i].id == id
                    && final(self).eps() == old(self).eps().remove(i),
    {
        match self.position(id) {
            None => Err(StoreError::NotFound(id)),
            Some(i) => {
                let ghost old_eps = self.episodes@;
                self.episodes.remove(i);
                assert forall|a: int| 0 <= a < self.episodes@.len() implies episode_ok(
                    #[trigger] self.episodes@[a],
                    self.dim,
                    self.next_id,
                ) by {
                    if a < i {
                        assert(self.episodes@[a] == old_eps[a]);
                    } else {
                        assert(self.episodes@[a] == old_eps[a + 1]);
                    }
                }
                assert forall|a: int, b: int|
                    0 <= a < b < self.episodes@.len() implies self.episodes@[a].id
                    != self.episodes@[b].id by {
                    let oa = if a < i { a } else { a + 1 };
                    let ob = if b < i { b } else { b + 1 };
                    assert(self.episodes@[a] == old_eps[oa]);
                    assert(self.episodes@[b] == old_eps[ob]);
                }
                Ok(())
            },
        }
    }

    /// Sets the utility of the episode with id `id` to `value`, limited to
    /// the declared range. The value counts as earned from feedback, so
    /// propagation starts from it.
    pub fn update_utility(&mut self, id: u64, value: i64) -> (r: Result<(), StoreError>)
        requires
            old(self).wf(),
        ensures
            final(self).wf(),
            final(self).spec_dim() == old(self).spec_dim(),
            has_id(old(self).eps(), id) <==> r is Ok,
            r is Err ==> r == Err::<(), StoreError>(StoreError::NotFound(id)) && final(self).eps()
                == old(self).eps(),
            r is Ok ==> exists|i: int|
                0 <= i < old(self).eps().len() && #[trigger] old(self).eps()[i].id == id
                    && final(self).eps() == old(self).eps().update(
                    i,
                    Episode {
                        utility: clamp_utility(value as int) as i64,
                        feedback_utility: clamp_utility(value as int) as i64,
                        ..old(self).eps()[i]
                    },
                ),
    {
        match self.position(id) {
            None => Err(StoreError::NotFound(id)),
            Some(i) => {
                let ghost old_eps = self.episodes@;
                let u = clamp(value);
                self.episodes[i].utility = u;
                self.episodes[i].feedback_utility = u;
                assert(self.episodes@ =~= old_eps.update(
                    i as int,
                    Episode { utility: u, feedback_utility: u, ..old_eps[i as int] },
                ));
                assert forall|a: int| 0 <= a < self.episodes@.len() implies episode_ok(
                    #[trigger] self.episodes@[a],
                    self.dim,
                    self.next_id,
                ) by {
                    assert(episode_ok(old_eps[a], self.dim, self.next_id));
                }
                Ok(())
            },
        }
    }
}

} // verus!
