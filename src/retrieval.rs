use vstd::prelude::*;
use crate::episode::{in_scope, project_matches, Episode, StoreError};
use crate::rank::{is_top_k, lemma_top_k_all, top_k, RankKey};
use crate::store::{embedding_fits, EpisodeStore};
use crate::vector::{components_ok, sim, similarity};
use crate::ident::{id_of_text, parse_id};
use vstd::string::StringSliceAdditionalSpecFns;

verus! {

/// How much one unit of utility weighs against one unit of similarity in
/// the final ranking. Similarity spans two million units per unit of
/// cosine, utility a thousand per unit, so similarity dominates.
pub const UTILITY_WEIGHT: i64 = 100;

/// Search order: similarity, then utility, then the more recent capture.
pub open spec fn search_key(e: Episode, q: Seq<i32>) -> RankKey {
    (sim(q, e.embedding@) as i64, e.utility, e.created_at)
}

/// Search keys of all episodes against `q`.
pub open spec fn search_keys(eps: Seq<Episode>, q: Seq<i32>) -> Seq<RankKey> {
    Seq::new(eps.len(), |i: int| search_key(eps[i], q))
}

/// Which episodes pass the project filter.
pub open spec fn scope_mask(eps: Seq<Episode>, filter: Option<String>) -> Seq<bool> {
    Seq::new(eps.len(), |i: int| in_scope(eps[i].project, filter))
}

/// Listing order: the later capture time first (compared as its high and
/// low 32 bits), then the later capture in the store.
pub open spec fn recency_keys(eps: Seq<Episode>) -> Seq<RankKey> {
    Seq::new(
        eps.len(),
        |i: int| ((eps[i].created_at / 0x1_0000_0000) as i64, (eps[i].created_at % 0x1_0000_0000) as i64, i as u64),
    )
}

/// Final ranking score: similarity plus weighted utility, increasing in both.
pub open spec fn combined_score(e: Episode, q: Seq<i32>) -> int {
    sim(q, e.embedding@) + UTILITY_WEIGHT * e.utility
}

/// Final ranking order: combined score, then similarity, then recency.
pub open spec fn retrieval_keys(eps: Seq<Episode>, q: Seq<i32>) -> Seq<RankKey> {
    Seq::new(
        eps.len(),
        |i: int| (combined_score(eps[i], q) as i64, sim(q, eps[i].embedding@) as i64, eps[i].created_at),
    )
}

/// Positions listed in `pos`.
pub open spec fn member_mask(n: nat, pos: Seq<usize>) -> Seq<bool> {
    Seq::new(n, |i: int| pos.contains(i as usize))
}

/// `pos` is what the store's similarity search returns for `q`: the `k`
/// most similar episodes in scope, ties going to higher utility, then to the
/// more recent capture.
pub open spec fn is_search_result(
    eps: Seq<Episode>,
    q: Seq<i32>,
    k: int,
    filter: Option<String>,
    pos: Seq<usize>,
) -> bool {
    is_top_k(search_keys(eps, q), scope_mask(eps, filter), k, pos)
}

/// `pos` is what retrieval returns: in list mode every episode in scope,
/// most recent first; otherwise the search result for `q` with `limit`
/// places, ordered by combined score.
pub open spec fn is_retrieval(
    eps: Seq<Episode>,
    q: Seq<i32>,
    limit: int,
    filter: Option<String>,
    all: bool,
    pos: Seq<usize>,
) -> bool {
    if all {
        is_top_k(recency_keys(eps), scope_mask(eps, filter), eps.len() as int, pos)
    } else {
        exists|found: Seq<usize>|
            is_search_result(eps, q, limit, filter, found) && is_top_k(
                retrieval_keys(eps, q),
                member_mask(eps.len(), found),
                limit,
                pos,
            )
    }
}

/// `e` after being returned by retrieval at time `now`.
pub open spec fn touched(e: Episode, now: u64) -> Episode {
    Episode {
        use_count: if e.use_count < u64::MAX {
            (e.use_count + 1) as u64
        } else {
            e.use_count
        },
        last_used_at: now,
        ..e
    }
}

/// The episodes after those at `pos` were returned at time `now`.
pub open spec fn touch_all(eps: Seq<Episode>, pos: Seq<usize>, now: u64) -> Seq<Episode> {
    Seq::new(
        eps.len(),
        |i: int|
            if pos.contains(i as usize) {
                touched(eps[i], now)
            } else {
                eps[i]
            },
    )
}

/// Ids of the episodes at `pos`, in that order.
pub open spec fn ids_at(eps: Seq<Episode>, pos: Seq<usize>) -> Seq<u64> {
    Seq::new(pos.len(), |i: int| eps[pos[i] as int].id)
}

/// Why `q` cannot be searched in a store of dimension `dim`.
pub open spec fn query_error(q: Seq<i32>, dim: usize) -> StoreError {
    if q.len() != dim {
        StoreError::DimensionMismatch { expected: dim, found: q.len() as usize }
    } else {
        StoreError::Validation(crate::episode::Invalid::ComponentOutOfRange)
    }
}

proof fn lemma_take_contains(s: Seq<usize>, t: int, x: usize)
    requires
        0 <= t < s.len(),
    ensures
        s.take(t + 1).contains(x) == (s.take(t).contains(x) || s[t] == x),
{
    if s.take(t + 1).contains(x) {
        let j = choose|j: int| 0 <= j < t + 1 && #[trigger] s.take(t + 1)[j] == x;
        if j < t {
            assert(s.take(t)[j] == x);
        }
    }
    if s.take(t).contains(x) {
        let j = choose|j: int| 0 <= j < t && #[trigger] s.take(t)[j] == x;
        assert(s.take(t + 1)[j] == x);
    }
    if s[t] == x {
        assert(s.take(t + 1)[t] == x);
    }
}

/// The text `b` writes the id of an episode in scope.
pub open spec fn names_episode(eps: Seq<Episode>, b: Seq<u8>, filter: Option<String>) -> bool {
    id_of_text(b) is Some && exists|i: int|
        0 <= i < eps.len() && #[trigger] eps[i].id == id_of_text(b)->0 && in_scope(eps[i].project, filter)
}

impl EpisodeStore {
    pub(crate) fn scope_flags(&self, project: &Option<String>) -> (r: Vec<bool>)
        ensures
            r@ == scope_mask(self.eps(), *project),
    {
        let mut r: Vec<bool> = Vec::new();
        let mut i: usize = 0;
        while i < self.episodes.len()
            invariant
                i <= self.episodes.len(),
                r.len() == i,
                forall|t: int| 0 <= t < i ==> r@[t] == in_scope(self.episodes@[t].project, *project),
            decreases self.episodes.len() - i,
        {
            r.push(project_matches(&self.episodes[i].project, project));
            i = i + 1;
        }
        assert(r@ =~= scope_mask(self.eps(), *project));
        r
    }

    fn search_key_list(&self, q: &Vec<i32>) -> (r: Vec<RankKey>)
        requires
            self.wf(),
            q.len() == self.spec_dim(),
            components_ok(q@),
        ensures
            r@ == search_keys(self.eps(), q@),
    {
        let mut r: Vec<RankKey> = Vec::new();
        let mut i: usize = 0;
        while i < self.episodes.len()
            invariant
                self.wf(),
                q.len() == self.spec_dim(),
                components_ok(q@),
                i <= self.episodes.len(),
                r.len() == i,
                forall|t: int| 0 <= t < i ==> r@[t] == search_key(self.episodes@[t], q@),
            decreases self.episodes.len() - i,
        {
            let e = &self.episodes[i];
            assert(crate::store::episode_ok(self.episodes@[i as int], self.dim, self.next_id));
            let s = similarity(q, &e.embedding);
            r.push((s, e.utility, e.created_at));
            i = i + 1;
        }
        assert(r@ =~= search_keys(self.eps(), q@));
        r
    }

    /// Positions of the `k` episodes in scope most similar to `q`.
    pub(crate) fn search_positions(&self, q: &Vec<i32>, k: usize, project: &Option<String>) -> (r:
        Vec<usize>)
        requires
            self.wf(),
            q.len() == self.spec_dim(),
            components_ok(q@),
        ensures
            is_search_result(self.eps(), q@, k as int, *project, r@),
    {
        let keys = self.search_key_list(q);
        let scope = self.scope_flags(project);
        top_k(&keys, &scope, k)
    }

    /// The `k` episodes in scope most similar to `query`, most similar first,
    /// each with its similarity. Ties go to higher utility, then to the more
    /// recent capture; with fewer than `k` in scope, all of them.
    pub fn search(&self, query: &Vec<i32>, k: usize, project: &Option<String>) -> (r: Result<
        Vec<(u64, i64)>,
        StoreError,
    >)
        requires
            self.wf(),
        ensures
            r is Ok <==> (query.len() == self.spec_dim() && components_ok(query@)),
            match r {
                Ok(hits) => exists|pos: Seq<usize>|
                    is_search_result(self.eps(), query@, k as int, *project, pos) && hits@
                        == Seq::new(
                        pos.len(),
                        |i: int|
                            (
                                self.eps()[pos[i] as int].id,
                                sim(query@, self.eps()[pos[i] as int].embedding@) as i64,
                            ),
                    ),
                Err(e) => e == query_error(query@, self.spec_dim()),
            },
    {
        match embedding_fits(query, self.dim) {
            Err(e) => Err(e),
            Ok(()) => {
                let pos = self.search_positions(query, k, project);
                let mut hits: Vec<(u64, i64)> = Vec::new();
                let mut i: usize = 0;
                while i < pos.len()
                    invariant
                        self.wf(),
                        query.len() == self.spec_dim(),
                        components_ok(query@),
                        is_search_result(self.eps(), query@, k as int, *project, pos@),
                        i <= pos.len(),
                        hits.len() == i,
                        forall|t: int|
                            0 <= t < i ==> hits@[t] == (
                                self.eps()[pos@[t] as int].id,
                                sim(query@, self.eps()[pos@[t] as int].embedding@) as i64,
                            ),
                    decreases pos.len() - i,
                {
                    let p = pos[i];
                    assert((p as int) < search_keys(self.eps(), query@).len());
                    let e = &self.episodes[p];
                    assert(crate::store::episode_ok(self.episodes@[p as int], self.dim, self.next_id));
                    let s = similarity(query, &e.embedding);
                    hits.push((e.id, s));
                    i = i + 1;
                }
                assert(hits@ =~= Seq::new(
                    pos@.len(),
                    |i: int|
                        (
                            self.eps()[pos@[i] as int].id,
                            sim(query@, self.eps()[pos@[i] as int].embedding@) as i64,
                        ),
                ));
                Ok(hits)
            },
        }
    }

    fn recency_key_list(&self) -> (r: Vec<RankKey>)
        ensures
            r@ == recency_keys(self.eps()),
    {
        let mut r: Vec<RankKey> = Vec::new();
        let mut i: usize = 0;
        while i < self.episodes.len()
            invariant
                i <= self.episodes.len(),
                r.len() == i,
                forall|t: int|
                    0 <= t < i ==> r@[t] == (
                        (self.episodes@[t].created_at / 0x1_0000_0000) as i64,
                        (self.episodes@[t].created_at % 0x1_0000_0000) as i64,
                        t as u64,
                    ),
            decreases self.episodes.len() - i,
        {
            let c = self.episodes[i].created_at;
            r.push(((c / 0x1_0000_0000) as i64, (c % 0x1_0000_0000) as i64, i as u64));
            i = i + 1;
        }
        assert(r@ =~= recency_keys(self.eps()));
        r
    }

    fn ids_of(&self, pos: &Vec<usize>) -> (r: Vec<u64>)
        requires
            forall|i: int| 0 <= i < pos.len() ==> (#[trigger] pos@[i] as int) < self.eps().len(),
        ensures
            r@ == ids_at(self.eps(), pos@),
    {
        let mut r: Vec<u64> = Vec::new();
        let mut i: usize = 0;
        while i < pos.len()
            invariant
                forall|i: int| 0 <= i < pos.len() ==> (#[trigger] pos@[i] as int) < self.eps().len(),
                i <= pos.len(),
                r.len() == i,
                forall|t: int| 0 <= t < i ==> r@[t] == self.episodes@[pos@[t] as int].id,
            decreases pos.len() - i,
        {
            let p = pos[i];
            r.push(self.episodes[p].id);
            i = i + 1;
        }
        assert(r@ =~= ids_at(self.eps(), pos@));
        r
    }

    pub(crate) fn list_positions(&self, project: &Option<String>) -> (r: Vec<usize>)
        ensures
            is_top_k(recency_keys(self.eps()), scope_mask(self.eps(), *project), self.eps().len() as int, r@),
            forall|i: int|
                0 <= i < self.eps().len() && in_scope(self.eps()[i].project, *project) ==> r@.contains(
                    i as usize,
                ),
    {
        let keys = self.recency_key_list();
        let scope = self.scope_flags(project);
        let r = top_k(&keys, &scope, self.episodes.len());
        proof {
            lemma_top_k_all(keys@, scope@, self.eps().len() as int, r@);
            assert forall|i: int|
                0 <= i < self.eps().len() && in_scope(self.eps()[i].project, *project) implies r@.contains(
                i as usize,
            ) by {
                assert(scope@[i]);
            }
        }
        r
    }

    /// Ids of every episode in scope, most recent capture first.
    pub fn list_all(&self, project: &Option<String>) -> (r: Vec<u64>)
        ensures
            exists|pos: Seq<usize>|
                is_top_k(recency_keys(self.eps()), scope_mask(self.eps(), *project), self.eps().len() as int, pos)
                    && r@ == ids_at(self.eps(), pos),
            forall|i: int|
                0 <= i < self.eps().len() && in_scope(self.eps()[i].project, *project) ==> r@.contains(
                    self.eps()[i].id,
                ),
    {
        let pos = self.list_positions(project);
        let r = self.ids_of(&pos);
        let n = self.episodes.len();
        proof {
            assert forall|i: int|
                0 <= i < self.eps().len() && in_scope(self.eps()[i].project, *project) implies r@.contains(
                self.eps()[i].id,
            ) by {
                assert(i < n);
                assert(pos@.contains(i as usize));
                let t = choose|t: int| 0 <= t < pos@.len() && pos@[t] == i as usize;
                assert(ids_at(self.eps(), pos@)[t] == self.eps()[pos@[t] as int].id);
                assert(r@[t] == self.eps()[i].id);
            }
        }
        r
    }

    fn retrieval_key_list(&self, q: &Vec<i32>) -> (r: Vec<RankKey>)
        requires
            self.wf(),
            q.len() == self.spec_dim(),
            components_ok(q@),
        ensures
            r@ == retrieval_keys(self.eps(), q@),
    {
        let mut r: Vec<RankKey> = Vec::new();
        let mut i: usize = 0;
        while i < self.episodes.len()
            invariant
                self.wf(),
                q.len() == self.spec_dim(),
                components_ok(q@),
                i <= self.episodes.len(),
                r.len() == i,
                forall|t: int|
                    0 <= t < i ==> r@[t] == (
                        combined_score(self.episodes@[t], q@) as i64,
                        sim(q@, self.episodes@[t].embedding@) as i64,
                        self.episodes@[t].created_at,
                    ),
            decreases self.episodes.len() - i,
        {
            let e = &self.episodes[i];
            assert(crate::store::episode_ok(self.episodes@[i as int], self.dim, self.next_id));
            let s = similarity(q, &e.embedding);
            let c = s + UTILITY_WEIGHT * e.utility;
            r.push((c, s, e.created_at));
            i = i + 1;
        }
        assert(r@ =~= retrieval_keys(self.eps(), q@));
        r
    }

    fn membership(&self, pos: &Vec<usize>) -> (r: Vec<bool>)
        ensures
            r@ == member_mask(self.eps().len(), pos@),
    {
        let n = self.episodes.len();
        let mut r: Vec<bool> = vec![false; n];
        let mut t: usize = 0;
        while t < pos.len()
            invariant
                n == self.eps().len(),
                r.len() == n,
                t <= pos.len(),
                forall|i: int| 0 <= i < n ==> r@[i] == pos@.take(t as int).contains(i as usize),
            decreases pos.len() - t,
        {
            let p = pos[t];
            let ghost before = r@;
            if p < n {
                r.set(p, true);
            }
            assert forall|i: int| 0 <= i < n implies r@[i] == pos@.take(t + 1).contains(i as usize) by {
                lemma_take_contains(pos@, t as int, i as usize);
                if i != p as int {
                    assert(r@[i] == before[i]);
                }
            }
            t = t + 1;
        }
        assert(pos@.take(pos.len() as int) =~= pos@);
        assert(r@ =~= member_mask(self.eps().len(), pos@));
        r
    }

    fn touch(&mut self, pos: &Vec<usize>, now: u64)
        requires
            old(self).wf(),
            forall|i: int| 0 <= i < pos.len() ==> (#[trigger] pos@[i] as int) < old(self).eps().len(),
            forall|i: int, j: int| 0 <= i < j < pos.len() ==> pos@[i] != pos@[j],
        ensures
            final(self).wf(),
            final(self).spec_dim() == old(self).spec_dim(),
            final(self).spec_next_id() == old(self).spec_next_id(),
            final(self).eps() == touch_all(old(self).eps(), pos@, now),
    {
        let ghost start = self.episodes@;
        let n = self.episodes.len();
        let mut t: usize = 0;
        while t < pos.len()
            invariant
                forall|i: int| 0 <= i < pos.len() ==> (#[trigger] pos@[i] as int) < start.len(),
                forall|i: int, j: int| 0 <= i < j < pos.len() ==> pos@[i] != pos@[j],
                self.dim == old(self).dim,
                self.next_id == old(self).next_id,
                start == old(self).eps(),
                n == start.len(),
                old(self).wf(),
                self.wf(),
                t <= pos.len(),
                self.episodes@ == touch_all(start, pos@.take(t as int), now),
            decreases pos.len() - t,
        {
            let p = pos[t];
            let ghost before = self.episodes@;
            assert(!pos@.take(t as int).contains(p)) by {
                if pos@.take(t as int).contains(p) {
                    let j = choose|j: int| 0 <= j < t && pos@.take(t as int)[j] == p;
                    assert(pos@[j] == pos@[t as int]);
                }
            }
            assert(before[p as int] == start[p as int]);
            let c = self.episodes[p].use_count;
            let c2 = if c < u64::MAX { c + 1 } else { c };
            self.episodes[p].use_count = c2;
            self.episodes[p].last_used_at = now;
            assert forall|a: int| 0 <= a < start.len() implies #[trigger] pos@.take(t + 1).contains(
                a as usize,
            ) == (pos@.take(t as int).contains(a as usize) || a == p as int) by {
                lemma_take_contains(pos@, t as int, a as usize);
            }
            assert(self.episodes@ =~= touch_all(start, pos@.take(t + 1), now));
            assert forall|a: int| 0 <= a < self.episodes@.len() implies crate::store::episode_ok(
                #[trigger] self.episodes@[a],
                self.dim,
                self.next_id,
            ) by {
                assert(crate::store::episode_ok(before[a], self.dim, self.next_id));
            }
            t = t + 1;
        }
        assert(pos@.take(pos.len() as int) =~= pos@);
    }

    /// Episodes for a new task. With `all`, every episode in scope, most
    /// recent first, and `query` is not read. Otherwise the `limit` episodes
    /// in scope most similar to `query`, ordered by combined score. Every
    /// episode returned has its use counted and its last use set to `now`.
    pub fn retrieve(
        &mut self,
        query: &Vec<i32>,
        limit: usize,
        project: &Option<String>,
        all: bool,
        now: u64,
    ) -> (r: Result<Vec<u64>, StoreError>)
        requires
            old(self).wf(),
        ensures
            final(self).wf(),
            final(self).spec_dim() == old(self).spec_dim(),
            final(self).spec_next_id() == old(self).spec_next_id(),
            r is Err <==> (!all && !(query.len() == old(self).spec_dim() && components_ok(query@))),
            match r {
                Err(e) => e == query_error(query@, old(self).spec_dim()) && final(self).eps() == old(
                    self,
                ).eps(),
                Ok(ids) => exists|pos: Seq<usize>|
                    is_retrieval(old(self).eps(), query@, limit as int, *project, all, pos) && ids@
                        == ids_at(old(self).eps(), pos) && final(self).eps() == touch_all(
                        old(self).eps(),
                        pos,
                        now,
                    ),
            },
    {
        let pos = if all {
            self.list_positions(project)
        } else {
            match embedding_fits(query, self.dim) {
                Err(e) => {
                    return Err(e);
                },
                Ok(()) => {},
            }
            let found = self.search_positions(query, limit, project);
            let keys = self.retrieval_key_list(query);
            let members = self.membership(&found);
            let ranked = top_k(&keys, &members, limit);
            assert(is_retrieval(self.eps(), query@, limit as int, *project, all, ranked@));
            ranked
        };
        assert forall|i: int| 0 <= i < pos.len() implies (#[trigger] pos@[i] as int) < self.eps().len() by {
            if all {
                assert((pos@[i] as int) < recency_keys(self.eps()).len());
            } else {
                let found = choose|found: Seq<usize>|
                    is_search_result(self.eps(), query@, limit as int, *project, found) && is_top_k(
                        retrieval_keys(self.eps(), query@),
                        member_mask(self.eps().len(), found),
                        limit as int,
                        pos@,
                    );
                assert((pos@[i] as int) < retrieval_keys(self.eps(), query@).len());
            }
        }
        let ids = self.ids_of(&pos);
        self.touch(&pos, now);
        Ok(ids)
    }

    /// Retrieval for a query given both as text and as its embedding. When
    /// not listing and the text is the id of an episode in scope, that
    /// episode alone is returned; otherwise as `retrieve`.
    pub fn retrieve_text(
        &mut self,
        text: &str,
        query: &Vec<i32>,
        limit: usize,
        project: &Option<String>,
        all: bool,
        now: u64,
    ) -> (r: Result<Vec<u64>, StoreError>)
        requires
            old(self).wf(),
        ensures
            final(self).wf(),
            final(self).spec_dim() == old(self).spec_dim(),
            final(self).spec_next_id() == old(self).spec_next_id(),
            !all && names_episode(old(self).eps(), text.spec_bytes(), *project) ==> exists|i: int|
                0 <= i < old(self).eps().len() && #[trigger] old(self).eps()[i].id == id_of_text(
                    text.spec_bytes(),
                )->0 && r is Ok && r->Ok_0@ == seq![old(self).eps()[i].id]
                    && final(self).eps() == touch_all(old(self).eps(), seq![i as usize], now),
            all || !names_episode(old(self).eps(), text.spec_bytes(), *project) ==> {
                &&& r is Err <==> (!all && !(query.len() == old(self).spec_dim() && components_ok(query@)))
                &&& match r {
                    Err(e) => e == query_error(query@, old(self).spec_dim()) && final(self).eps()
                        == old(self).eps(),
                    Ok(ids) => exists|pos: Seq<usize>|
                        is_retrieval(old(self).eps(), query@, limit as int, *project, all, pos)
                            && ids@ == ids_at(old(self).eps(), pos) && final(self).eps()
                            == touch_all(old(self).eps(), pos, now),
                }
            },
    {
        if !all {
            match parse_id(text) {
                Some(id) => match self.position(id) {
                    Some(i) => {
                        if project_matches(&self.episodes[i].project, project) {
                            let pos = vec![i];
                            assert(pos@ == seq![i]);
                            self.touch(&pos, now);
                            let r = vec![id];
                            assert(r@ == seq![id]);
                            return Ok(r);
                        } else {
                            assert(!names_episode(self.eps(), text.spec_bytes(), *project)) by {
                                if names_episode(self.eps(), text.spec_bytes(), *project) {
                                    let j = choose|j: int|
                                        0 <= j < self.eps().len() && #[trigger] self.eps()[j].id == id
                                            && in_scope(self.eps()[j].project, *project);
                                    if j != i as int {
                                        assert(crate::store::ids_unique(self.eps()));
                                        if j < i {
                                            assert(self.eps()[j].id != self.eps()[i as int].id);
                                        } else {
                                            assert(self.eps()[i as int].id != self.eps()[j].id);
                                        }
                                    }
                                }
                            }
                        }
                    },
                    None => {},
                },
                None => {},
            }
        }
        self.retrieve(query, limit, project, all, now)
    }
}

} // verus!
