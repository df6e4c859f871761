//! A query over all packages, step by step: the searches are run and the texts are scored
//! by the caller, and the session decides what comes next and what is shown.

use vstd::prelude::*;

use crate::hits;
use crate::hits::{drop_introduced, is_surfaced, merge_hits, select_pool, UnifiedHit};
use crate::mcp;
use crate::mcp::query_fetch_limit;
use crate::pieces;
use crate::query_expansion::QueryExpansionConfig;
use crate::rank;
use crate::rank::{Score, ScoreView};
use crate::report;
use crate::report::{nothing_found, query_report};
use crate::reranker::RerankerConfig;
use crate::search;
use crate::search::{
    best_window, collect_query_hits, expand_hit, final_ranking, first_pass_text, note_window,
    promoted, relevant, second_pass_texts, unranked, Placed, ScoredPlace, SearchStep, StepReply,
};
use crate::windows;

verus! {

/// What variants of a query may add to what the query itself finds.
#[derive(Debug, Clone, Copy, PartialEq, Eq, Structural)]
pub struct ExpansionPolicy {
    /// Variants only reinforce what the query found.
    pub additive_only: bool,
    /// How many hits that only variants found are looked at closely.
    pub max_introduced: usize,
    /// Hits in packages in which the query found nothing are weighed down.
    pub topical_anchoring: bool,
}

impl ExpansionPolicy {
    /// The policy that is set, with the share of the pool that variants may fill.
    pub fn of(cfg: &QueryExpansionConfig, max_introduced: usize) -> (r: Self)
        ensures
            r.additive_only == cfg.additive_only,
            r.max_introduced == max_introduced,
            r.topical_anchoring == cfg.topical_anchoring,
    {
        ExpansionPolicy {
            additive_only: cfg.additive_only,
            max_introduced,
            topical_anchoring: cfg.topical_anchoring,
        }
    }
}

/// The hits that a policy admits, each thing once.
pub open spec fn admitted(hs: Seq<hits::HitView>, policy: ExpansionPolicy) -> Seq<hits::HitView> {
    if policy.additive_only {
        hits::own_hits(hits::deduped(hs))
    } else {
        hits::deduped(hs)
    }
}

/// The state of a query.
#[derive(Debug, Clone)]
pub struct QuerySession {
    pub query: String,
    /// How many hits are shown at most.
    pub limit: usize,
    /// How many hits each index gives, and how many are looked at closely.
    pub fetch: usize,
    /// Whether a model scores the hits.
    pub reranked: bool,
    pub policy: ExpansionPolicy,
    /// What was found.
    pub hits: Vec<UnifiedHit>,
    /// The hits that are looked at closely.
    pub pool: Vec<usize>,
    /// The scores of the pool in the first pass.
    pub first: Vec<Score>,
    /// The places in the pool that the second pass looks at.
    pub promoted: Vec<usize>,
    /// The scores of the promoted hits that the second pass is done with.
    pub best: Vec<Score>,
}

/// The places that a first pass promotes.
pub open spec fn promotion(first: Seq<ScoreView>, limit: nat) -> Seq<int> {
    hits::at_most(search::first_order(first), search::budget(limit))
}

/// The hits that a query shows after both passes, none of which the model thinks
/// irrelevant.
pub open spec fn ranked_places(first: Seq<ScoreView>, best: Seq<ScoreView>, limit: nat) -> Seq<
    Placed,
> {
    search::above_floor(hits::at_most(search::final_places(first, best), limit))
}

/// The hits that a query shows where no model scores them.
pub open spec fn plain_places(scores: Seq<ScoreView>, limit: nat) -> Seq<Placed> {
    hits::at_most(
        Seq::new(scores.len(), |i: int| Placed { place: i, score: scores[i] }),
        limit,
    )
}

impl QuerySession {
    /// Every place is one of the pool, and every hit of the pool was found.
    pub open spec fn wf(&self) -> bool {
        &&& forall|i: int| 0 <= i < self.pool@.len() ==> #[trigger] self.pool@[i] < self.hits@.len()
        &&& forall|i: int|
            0 <= i < self.promoted@.len() ==> #[trigger] self.promoted@[i] < self.pool@.len()
        &&& self.best@.len() <= self.promoted@.len()
        &&& self.promoted@.len() > 0 ==> self.first@.len() == self.pool@.len() && rank::places(
            self.promoted@,
        ) == promotion(rank::score_views(self.first@), self.limit as nat)
    }

    /// Everything but the hits, the pool and the scores.
    pub open spec fn same_query(&self, other: QuerySession) -> bool {
        self.query@ == other.query@ && self.limit == other.limit && self.fetch == other.fetch
            && self.reranked == other.reranked && self.policy == other.policy
    }

    /// Whether the pool still has to be scored.
    pub open spec fn unscored(&self) -> bool {
        self.first@.len() == 0 && self.promoted@.len() == 0 && self.best@.len() == 0
    }

    /// A query that has found nothing yet.
    pub fn new(
        query: &str,
        limit: usize,
        cfg: &Option<RerankerConfig>,
        loaded: bool,
        policy: ExpansionPolicy,
    ) -> (r: Self)
        ensures
            r.wf(),
            r.unscored(),
            r.query@ == query@,
            r.limit == limit,
            r.fetch == (if mcp::fetch_limit(*cfg, loaded, limit as nat) > 20 {
                mcp::fetch_limit(*cfg, loaded, limit as nat)
            } else {
                20
            }),
            r.reranked == loaded,
            r.policy == policy,
            r.hits@.len() == 0,
            r.pool@.len() == 0,
    {
        QuerySession {
            query: query.to_owned(),
            limit,
            fetch: query_fetch_limit(cfg, loaded, limit),
            reranked: loaded,
            policy,
            hits: Vec::new(),
            pool: Vec::new(),
            first: Vec::new(),
            promoted: Vec::new(),
            best: Vec::new(),
        }
    }

    /// Take in what the searches of a run gave.
    pub fn collect(&mut self, steps: &Vec<SearchStep>, replies: &Vec<StepReply>, weight: u32)
        requires
            old(self).wf(),
            old(self).pool@.len() == 0,
            steps@.len() == replies@.len(),
        ensures
            final(self).wf(),
            final(self).same_query(*old(self)),
            final(self).pool@.len() == 0,
            hits::hit_views(final(self).hits@) == hits::hit_views(old(self).hits@)
                + search::run_hits(search::step_views(steps@), replies@, weight),
            final(self).first@ == old(self).first@,
            final(self).promoted@ == old(self).promoted@,
            final(self).best@ == old(self).best@,
    {
        collect_query_hits(steps, replies, weight, &mut self.hits);
        assert(self.promoted@.len() == 0) by {
            if self.promoted@.len() > 0 {
                assert(self.promoted@[0] < self.pool@.len());
            }
        }
    }

    /// Fuse what was found twice, and leave out what is not admitted. Where nothing is
    /// left, this is the answer.
    pub fn fuse(&mut self) -> (r: Option<String>)
        requires
            old(self).wf(),
            old(self).pool@.len() == 0,
        ensures
            final(self).wf(),
            final(self).same_query(*old(self)),
            final(self).pool@.len() == 0,
            hits::hit_views(final(self).hits@) == admitted(
                hits::hit_views(old(self).hits@),
                old(self).policy,
            ),
            final(self).first@ == old(self).first@,
            final(self).promoted@ == old(self).promoted@,
            final(self).best@ == old(self).best@,
            match r {
                Some(t) => final(self).hits@.len() == 0 && t@ == report::nothing_text(
                    old(self).query@,
                ),
                None => final(self).hits@.len() > 0,
            },
    {
        let all = merge_hits(&self.hits);
        self.hits = if self.policy.additive_only {
            drop_introduced(&all)
        } else {
            all
        };
        assert(self.promoted@.len() == 0) by {
            if self.promoted@.len() > 0 {
                assert(self.promoted@[0] < self.pool@.len());
            }
        }
        if self.hits.len() == 0 {
            Some(nothing_found(self.query.as_str()))
        } else {
            None
        }
    }

    /// Whether the score of a hit is weighed down: the query itself found nothing in the
    /// hit's package.
    pub fn is_off_topic(&self, i: usize) -> (r: bool)
        requires
            i < self.hits@.len(),
        ensures
            r == (self.policy.topical_anchoring && !hits::surfaced(
                hits::hit_views(self.hits@),
                self.hits@[i as int].package@,
            )),
    {
        self.policy.topical_anchoring && !is_surfaced(&self.hits, self.hits[i].package.as_str())
    }

    /// Choose the hits to look at. `keys` puts the fused scores of the hits in order.
    pub fn choose_pool(&mut self, keys: &Vec<u64>)
        requires
            old(self).wf(),
            old(self).unscored(),
            keys@.len() == old(self).hits@.len(),
        ensures
            final(self).wf(),
            final(self).unscored(),
            final(self).same_query(*old(self)),
            final(self).hits@ == old(self).hits@,
            rank::places(final(self).pool@) == hits::pool(
                hits::hit_views(old(self).hits@),
                keys@,
                old(self).fetch as nat,
                old(self).policy.max_introduced as nat,
            ),
    {
        self.pool = select_pool(&self.hits, keys, self.fetch, self.policy.max_introduced);
    }

    /// Give a hit of the pool the whole symbol that it is part of.
    pub fn expand(&mut self, i: usize, at_place: &Option<String>, by_name: &Option<String>)
        requires
            old(self).wf(),
            i < old(self).pool@.len(),
        ensures
            final(self).wf(),
            final(self).same_query(*old(self)),
            final(self).pool@ == old(self).pool@,
            final(self).first@ == old(self).first@,
            final(self).promoted@ == old(self).promoted@,
            final(self).best@ == old(self).best@,
            hits::hit_views(final(self).hits@) == hits::hit_views(old(self).hits@).update(
                old(self).pool@[i as int] as int,
                search::expanded(
                    old(self).hits@[old(self).pool@[i as int] as int]@,
                    pieces::opt_text(*at_place),
                    pieces::opt_text(*by_name),
                ),
            ),
    {
        let k: usize = self.pool[i];
        let ghost before = self.hits@;
        let mut h = self.hits[k].copy();
        expand_hit(&mut h, at_place, by_name);
        let ghost changed = h@;
        self.hits.set(k, h);
        assert(hits::hit_views(self.hits@) =~= hits::hit_views(before).update(k as int, changed));
    }

    /// The texts that the first pass scores, one for each hit of the pool.
    pub fn first_texts(&self) -> (r: Vec<String>)
        requires
            self.wf(),
        ensures
            r@.len() == self.pool@.len(),
            forall|i: int|
                0 <= i < r@.len() ==> (#[trigger] r@[i])@ == search::candidate_text(
                    self.hits@[self.pool@[i] as int]@,
                    search::first_body(self.hits@[self.pool@[i] as int]@),
                ),
    {
        let mut r: Vec<String> = Vec::new();
        let mut i: usize = 0;
        while i < self.pool.len()
            invariant
                i <= self.pool@.len(),
                self.wf(),
                r@.len() == i,
                forall|j: int|
                    0 <= j < i ==> (#[trigger] r@[j])@ == search::candidate_text(
                        self.hits@[self.pool@[j] as int]@,
                        search::first_body(self.hits@[self.pool@[j] as int]@),
                    ),
            decreases self.pool.len() - i,
        {
            r.push(first_pass_text(&self.hits[self.pool[i]]));
            i = i + 1;
        }
        r
    }

    /// Take in the scores of the first pass, and promote the best hits to the second.
    pub fn score_first(&mut self, scores: Vec<Score>)
        requires
            old(self).wf(),
            old(self).unscored(),
            scores@.len() == old(self).pool@.len(),
        ensures
            final(self).wf(),
            final(self).same_query(*old(self)),
            final(self).hits@ == old(self).hits@,
            final(self).pool@ == old(self).pool@,
            final(self).first@ == scores@,
            final(self).best@.len() == 0,
            rank::places(final(self).promoted@) == promotion(
                rank::score_views(scores@),
                old(self).limit as nat,
            ),
    {
        self.promoted = promoted(&scores, self.limit);
        self.first = scores;
    }

    /// The hit that the second pass looks at next.
    pub open spec fn next_hit(&self) -> int {
        self.pool@[self.promoted@[self.best@.len() as int] as int] as int
    }

    /// The texts of the hit that the second pass looks at next, one for each window.
    pub fn next_texts(&self) -> (r: Option<Vec<String>>)
        requires
            self.wf(),
        ensures
            match r {
                Some(v) => self.best@.len() < self.promoted@.len() && v@.len() > 0 && pieces::texts(
                    v@,
                ) == windows::window_texts(
                    search::second_body(self.hits@[self.next_hit()]@),
                ).map_values(
                    |w: Seq<char>| search::candidate_text(self.hits@[self.next_hit()]@, w),
                ),
                None => self.best@.len() == self.promoted@.len(),
            },
    {
        let n = self.best.len();
        if n == self.promoted.len() {
            return None;
        }
        let k: usize = self.pool[self.promoted[n]];
        Some(second_pass_texts(&self.hits[k]))
    }

    /// Take in the scores of the windows of the hit that the second pass looks at: the best
    /// of them is the hit's, and its window is noted.
    pub fn score_next(&mut self, scores: &Vec<Score>)
        requires
            old(self).wf(),
            old(self).best@.len() < old(self).promoted@.len(),
            scores@.len() > 0,
            scores@.len() == windows::window_texts(
                search::second_body(old(self).hits@[old(self).next_hit()]@),
            ).len(),
        ensures
            final(self).wf(),
            final(self).same_query(*old(self)),
            final(self).pool@ == old(self).pool@,
            final(self).first@ == old(self).first@,
            final(self).promoted@ == old(self).promoted@,
            ({
                let at = search::best_of(rank::score_keys(rank::score_views(scores@)));
                &&& rank::score_views(final(self).best@) == rank::score_views(
                    old(self).best@,
                ).push(scores@[at]@)
                &&& hits::hit_views(final(self).hits@) == hits::hit_views(old(self).hits@).update(
                    old(self).next_hit(),
                    search::windowed(old(self).hits@[old(self).next_hit()]@, at as nat),
                )
            }),
    {
        let n = self.best.len();
        let k: usize = self.pool[self.promoted[n]];
        let at = best_window(scores);
        let ghost before = self.hits@;
        let ghost bests = rank::score_views(self.best@);
        let mut h = self.hits[k].copy();
        note_window(&mut h, at);
        let ghost changed = h@;
        self.hits.set(k, h);
        assert(hits::hit_views(self.hits@) =~= hits::hit_views(before).update(k as int, changed));
        self.best.push(scores[at].copy());
        assert(rank::score_views(self.best@) =~= bests.push(scores@[at as int]@));
    }

    /// What is shown: with a model, what both passes put first and is not irrelevant; without
    /// one, the first of the pool under their fused scores.
    pub open spec fn shown_places(&self, fused: Seq<ScoreView>) -> Seq<Placed> {
        if self.reranked {
            ranked_places(
                rank::score_views(self.first@),
                rank::score_views(self.best@),
                self.limit as nat,
            )
        } else {
            plain_places(fused, self.limit as nat)
        }
    }

    /// The hits that are shown. `fused` gives the fused scores of the pool.
    pub fn shown(&self, fused: &Vec<Score>) -> (r: Vec<ScoredPlace>)
        requires
            self.wf(),
            fused@.len() == self.pool@.len(),
            self.reranked ==> self.first@.len() == self.pool@.len() && self.best@.len()
                == promotion(rank::score_views(self.first@), self.limit as nat).len(),
        ensures
            search::placed_views(r@) == self.shown_places(rank::score_views(fused@)),
            r@.len() <= self.limit,
            forall|i: int| 0 <= i < r@.len() ==> (#[trigger] r@[i]).place < self.pool@.len(),
    {
        if self.reranked {
            let all = final_ranking(&self.first, &self.best, self.limit);
            let r = relevant(&all, self.pool.len());
            proof {
                lemma_above_floor(search::placed_views(all@));
                assert(search::placed_views(all@).len() == all@.len());
                assert(search::placed_views(r@).len() == r@.len());
            }
            r
        } else {
            let r = unranked(fused, self.limit);
            proof {
                let want = plain_places(rank::score_views(fused@), self.limit as nat);
                assert forall|i: int| 0 <= i < r@.len() implies search::placed_views(r@)[i]
                    == want[i] by {
                    assert(r@[i]@ == (Placed { place: i, score: fused@[i]@ }));
                }
                assert(search::placed_views(r@) =~= want);
                assert forall|i: int| 0 <= i < r@.len() implies (#[trigger] r@[i]).place
                    < self.pool@.len() by {
                    assert(r@[i]@.place == i);
                }
            }
            r
        }
    }

    /// The answer to the query.
    pub fn answer(&self, fused: &Vec<Score>) -> (r: String)
        requires
            self.wf(),
            fused@.len() == self.pool@.len(),
            self.reranked ==> self.first@.len() == self.pool@.len() && self.best@.len()
                == promotion(rank::score_views(self.first@), self.limit as nat).len(),
        ensures
            r@ == report::answer_text(
                hits::hit_views(self.hits@),
                rank::places(self.pool@),
                self.shown_places(rank::score_views(fused@)),
                self.query@,
                self.reranked,
            ),
    {
        let shown = self.shown(fused);
        query_report(&self.hits, &self.pool, &shown, self.query.as_str(), self.reranked)
    }
}

proof fn lemma_above_floor(ps: Seq<Placed>)
    ensures
        search::above_floor(ps).len() <= ps.len(),
    decreases ps.len(),
{
    if ps.len() > 0 {
        lemma_above_floor(ps.drop_last());
    }
}

/// A query shows no more hits than it was asked for, whatever was found and however it was
/// scored.
pub proof fn no_more_is_shown_than_was_asked_for(
    first: Seq<ScoreView>,
    best: Seq<ScoreView>,
    fused: Seq<ScoreView>,
    limit: nat,
)
    ensures
        ranked_places(first, best, limit).len() <= limit,
        plain_places(fused, limit).len() <= limit,
{
    lemma_above_floor(hits::at_most(search::final_places(first, best), limit));
}

/// Where variants may only reinforce, nothing that the query itself did not find is looked
/// at, and no hit is weighed down.
pub proof fn expansion_brings_in_nothing_new(
    hs: Seq<hits::HitView>,
    policy: ExpansionPolicy,
    i: int,
)
    requires
        policy.additive_only,
        0 <= i < admitted(hs, policy).len(),
    ensures
        hits::own(admitted(hs, policy)[i]),
        hits::deduped(hs).contains(admitted(hs, policy)[i]),
        hits::surfaced(admitted(hs, policy), admitted(hs, policy)[i].package),
{
    hits::variants_only_reinforce(hits::deduped(hs));
}

/// A policy takes nothing from what the query itself finds.
pub proof fn the_query_alone_loses_nothing(hs: Seq<hits::HitView>, policy: ExpansionPolicy)
    requires
        forall|i: int| 0 <= i < hs.len() ==> hits::own(#[trigger] hs[i]),
    ensures
        admitted(hs, policy) == hits::deduped(hs),
{
    hits::lemma_own_entries(hs);
    let ds = hits::deduped(hs);
    assert forall|i: int| 0 <= i < ds.len() implies hits::own(#[trigger] ds[i]) by {
        assert(ds[i] == hits::entries(hs)[i].hit);
    }
    hits::lemma_all_own(ds);
}

/// What is shown is the best that there is: without a model the first of the pool as they
/// stand, each with its score; with one what both passes put first, as far as it is relevant.
pub proof fn the_best_are_shown(
    first: Seq<ScoreView>,
    best: Seq<ScoreView>,
    fused: Seq<ScoreView>,
    limit: nat,
    i: int,
)
    ensures
        0 <= i < limit && i < fused.len() ==> i < plain_places(fused, limit).len() && plain_places(
            fused,
            limit,
        )[i] == (Placed { place: i, score: fused[i] }),
        best.len() <= first.len() && 0 <= i < limit && i < first.len() && search::final_places(
            first,
            best,
        )[i].score.key >= search::FLOOR_KEY ==> ranked_places(first, best, limit).contains(
            search::final_places(first, best)[i],
        ),
{
    if best.len() <= first.len() && 0 <= i < limit && i < first.len() && search::final_places(
        first,
        best,
    )[i].score.key >= search::FLOOR_KEY {
        search::ranking_is_a_permutation(first, best);
        let f = search::final_places(first, best);
        let s = hits::at_most(f, limit);
        assert(s[i] == f[i]);
        let a = s.take(i);
        let b = s.skip(i + 1);
        let x = s[i];
        assert(s =~= a + (seq![x] + b));
        search::everything_relevant_is_shown(a, seq![x] + b, x);
        search::everything_relevant_is_shown(seq![x], b, x);
        let k = search::above_floor(a).len() as int;
        assert(search::above_floor(s)[k] == x);
    }
}

/// What the query itself found is admitted whatever the policy, and without a policy that
/// keeps variants out everything is.
pub proof fn what_was_found_is_admitted(hs: Seq<hits::HitView>, policy: ExpansionPolicy, i: int)
    requires
        0 <= i < hits::deduped(hs).len(),
        hits::own(hits::deduped(hs)[i]) || !policy.additive_only,
    ensures
        admitted(hs, policy).contains(hits::deduped(hs)[i]),
{
    hits::variants_only_reinforce(hits::deduped(hs));
    if !policy.additive_only {
        assert(admitted(hs, policy)[i] == hits::deduped(hs)[i]);
    }
}

/// The first pass promotes as many hits as are shown, five at least, where there are so many,
/// and none that it does not promote scored better.
pub proof fn the_best_of_the_pool_are_promoted(
    first: Seq<ScoreView>,
    limit: nat,
    i: int,
    j: int,
)
    ensures
        promotion(first, limit).len() <= first.len(),
        promotion(first, limit).len() == first.len() || (promotion(first, limit).len() == limit
            && limit >= 5) || (promotion(first, limit).len() == 5 && limit <= 5),
        promotion(first, limit).contains(i) && 0 <= j < first.len() && !promotion(
            first,
            limit,
        ).contains(j) ==> 0 <= i < first.len() && first[i].key >= first[j].key,
{
    rank::falling_is_in_order(rank::score_keys(first));
    if promotion(first, limit).contains(i) && 0 <= j < first.len() && !promotion(
        first,
        limit,
    ).contains(j) {
        search::the_best_are_promoted(first, limit, i, j);
    }
}

/// A step of a session leaves the query and all that was asked of it as it was.
pub proof fn the_query_stays_the_same(a: QuerySession, b: QuerySession)
    requires
        a.same_query(b),
    ensures
        a.query@ == b.query@,
        a.limit == b.limit,
        a.fetch == b.fetch,
        a.reranked == b.reranked,
        a.policy == b.policy,
{
}

} // verus!
