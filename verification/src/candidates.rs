//! Candidates of a hybrid query: symbols and passages side by side.

use vstd::prelude::*;

use crate::hits;
use crate::reranker;
use crate::reranker::{CandidateView, RerankCandidate, RerankOrigin, RerankResult, ResultView};
use crate::text::same_text;

verus! {

impl RerankCandidate {
    pub fn copy(&self) -> (r: RerankCandidate)
        ensures
            r@ == self@,
    {
        RerankCandidate {
            source: self.source.clone(),
            text: self.text.clone(),
            origin: self.origin,
        }
    }
}

impl RerankResult {
    pub fn copy(&self) -> (r: RerankResult)
        ensures
            r@ == self@,
    {
        RerankResult {
            source: self.source.clone(),
            text: self.text.clone(),
            origin: self.origin,
            score: self.score.copy(),
        }
    }
}

// ---------------------------------------------------------------------------
// Merging
// ---------------------------------------------------------------------------

/// Symbols and passages in turn, then the rest of those of which there are more.
pub open spec fn interleaved(code: Seq<CandidateView>, docs: Seq<CandidateView>) -> Seq<
    CandidateView,
>
    decreases code.len(),
{
    if code.len() == 0 {
        docs
    } else if docs.len() == 0 {
        code
    } else {
        seq![code[0], docs[0]] + interleaved(code.drop_first(), docs.drop_first())
    }
}

/// Merge symbols and passages, no more than `total_k` in all, so that neither kind fills
/// the pool alone.
pub fn merge_query_candidates(
    code: &Vec<RerankCandidate>,
    docs: &Vec<RerankCandidate>,
    total_k: usize,
) -> (r: Vec<RerankCandidate>)
    ensures
        reranker::candidate_views(r@) == hits::at_most(
            interleaved(
                reranker::candidate_views(code@),
                reranker::candidate_views(docs@),
            ),
            total_k as nat,
        ),
{
    let ghost c = reranker::candidate_views(code@);
    let ghost d = reranker::candidate_views(docs@);
    let ghost all = interleaved(c, d);
    let mut merged: Vec<RerankCandidate> = Vec::new();
    let mut i: usize = 0;
    proof {
        assert(c.skip(0) =~= c);
        assert(d.skip(0) =~= d);
        assert(reranker::candidate_views(merged@) + interleaved(c.skip(0), d.skip(0)) =~= all);
    }
    while i < code.len() && i < docs.len()
        invariant
            i <= code@.len(),
            i <= docs@.len(),
            c == reranker::candidate_views(code@),
            d == reranker::candidate_views(docs@),
            reranker::candidate_views(merged@) + interleaved(c.skip(i as int), d.skip(i as int))
                == all,
        decreases code.len() - i,
    {
        let ghost before = reranker::candidate_views(merged@);
        proof {
            assert(c.skip(i as int).drop_first() =~= c.skip(i + 1));
            assert(d.skip(i as int).drop_first() =~= d.skip(i + 1));
            assert(c.skip(i as int)[0] == code@[i as int]@);
            assert(d.skip(i as int)[0] == docs@[i as int]@);
        }
        merged.push(code[i].copy());
        merged.push(docs[i].copy());
        proof {
            assert(reranker::candidate_views(merged@) =~= before + seq![
                code@[i as int]@,
                docs@[i as int]@,
            ]);
            assert(reranker::candidate_views(merged@) + interleaved(c.skip(i + 1), d.skip(i + 1))
                =~= before + interleaved(c.skip(i as int), d.skip(i as int)));
        }
        i = i + 1;
    }
    let mut k: usize = i;
    if i < code.len() {
        while k < code.len()
            invariant
                i <= k <= code@.len(),
                c == reranker::candidate_views(code@),
                reranker::candidate_views(merged@) + c.skip(k as int) == all,
            decreases code.len() - k,
        {
            let ghost before = reranker::candidate_views(merged@);
            merged.push(code[k].copy());
            proof {
                assert(reranker::candidate_views(merged@) =~= before.push(c[k as int]));
                assert(reranker::candidate_views(merged@) + c.skip(k + 1) =~= before + c.skip(
                    k as int,
                ));
            }
            k = k + 1;
        }
        assert(reranker::candidate_views(merged@) =~= all);
    } else {
        while k < docs.len()
            invariant
                i <= k <= docs@.len(),
                d == reranker::candidate_views(docs@),
                reranker::candidate_views(merged@) + d.skip(k as int) == all,
            decreases docs.len() - k,
        {
            let ghost before = reranker::candidate_views(merged@);
            merged.push(docs[k].copy());
            proof {
                assert(reranker::candidate_views(merged@) =~= before.push(d[k as int]));
                assert(reranker::candidate_views(merged@) + d.skip(k + 1) =~= before + d.skip(
                    k as int,
                ));
            }
            k = k + 1;
        }
        assert(reranker::candidate_views(merged@) =~= all);
    }
    let ghost whole = merged@;
    let mut r: Vec<RerankCandidate> = Vec::new();
    let mut j: usize = 0;
    assert(reranker::candidate_views(r@) =~= all.take(0));
    while j < merged.len() && j < total_k
        invariant
            j <= merged@.len(),
            j <= total_k,
            all == reranker::candidate_views(merged@),
            reranker::candidate_views(r@) == all.take(j as int),
        decreases merged.len() - j,
    {
        let ghost before = reranker::candidate_views(r@);
        r.push(merged[j].copy());
        proof {
            assert(reranker::candidate_views(r@) =~= before.push(all[j as int]));
            assert(all.take(j + 1) =~= all.take(j as int).push(all[j as int]));
        }
        j = j + 1;
    }
    assert(all.take(all.len() as int) =~= all);
    r
}

/// Merging loses nothing but for the limit, and both kinds are in it as soon as there is
/// room for two.
pub proof fn both_kinds_are_merged(code: Seq<CandidateView>, docs: Seq<CandidateView>, k: nat)
    ensures
        interleaved(code, docs).len() == code.len() + docs.len(),
        code.len() > 0 && docs.len() > 0 && k >= 2 ==> hits::at_most(
            interleaved(code, docs),
            k,
        ).contains(code[0]) && hits::at_most(interleaved(code, docs), k).contains(docs[0]),
    decreases code.len(),
{
    if code.len() > 0 && docs.len() > 0 {
        both_kinds_are_merged(code.drop_first(), docs.drop_first(), k);
        let all = interleaved(code, docs);
        let some = hits::at_most(all, k);
        assert(all[0] == code[0] && all[1] == docs[0]);
        if k >= 2 {
            assert(some[0] == code[0] && some[1] == docs[0]);
        }
    }
}

// ---------------------------------------------------------------------------
// Showing both kinds
// ---------------------------------------------------------------------------

/// Two results show the same.
pub open spec fn shows_same(a: ResultView, b: ResultView) -> bool {
    a.candidate.source == b.candidate.source && a.candidate.text == b.candidate.text
}

/// One of the results shows the same.
pub open spec fn is_shown(rs: Seq<ResultView>, r: ResultView) -> bool {
    exists|i: int| 0 <= i < rs.len() && shows_same(#[trigger] rs[i], r)
}

/// The first result of a kind.
pub open spec fn first_of(rs: Seq<ResultView>, origin: RerankOrigin) -> Option<ResultView>
    decreases rs.len(),
{
    if rs.len() == 0 {
        None
    } else if rs[0].candidate.origin == origin {
        Some(rs[0])
    } else {
        first_of(rs.drop_first(), origin)
    }
}

/// The best symbol and the best passage.
pub open spec fn leaders(rs: Seq<ResultView>) -> Seq<ResultView> {
    let code = match first_of(rs, RerankOrigin::Codegraph) {
        Some(c) => seq![c],
        None => seq![],
    };
    match first_of(rs, RerankOrigin::Docs) {
        Some(d) => if is_shown(code, d) {
            code
        } else {
            code.push(d)
        },
        None => code,
    }
}

/// The leaders, and behind them the other results as long as there is room.
pub open spec fn filled(lead: Seq<ResultView>, rs: Seq<ResultView>, limit: nat) -> Seq<ResultView>
    decreases rs.len(),
{
    if rs.len() == 0 {
        lead
    } else {
        let before = filled(lead, rs.drop_last(), limit);
        if before.len() >= limit || is_shown(before, rs.last()) {
            before
        } else {
            before.push(rs.last())
        }
    }
}

/// The results that are shown: where there are symbols and passages, the best of both
/// kinds come first.
pub open spec fn diversified(
    rs: Seq<ResultView>,
    limit: nat,
    has_codegraph: bool,
    has_docs: bool,
) -> Seq<ResultView> {
    if !has_codegraph || !has_docs || limit <= 1 {
        hits::at_most(rs, limit)
    } else {
        hits::at_most(filled(leaders(rs), rs, limit), limit)
    }
}

fn find_first(rs: &Vec<RerankResult>, origin: RerankOrigin) -> (r: Option<RerankResult>)
    ensures
        match r {
            Some(x) => first_of(reranker::result_views(rs@), origin) == Some(x@),
            None => first_of(reranker::result_views(rs@), origin) is None,
        },
{
    let ghost all = reranker::result_views(rs@);
    let mut i: usize = 0;
    assert(all.skip(0) =~= all);
    while i < rs.len()
        invariant
            i <= rs@.len(),
            all == reranker::result_views(rs@),
            first_of(all, origin) == first_of(all.skip(i as int), origin),
        decreases rs.len() - i,
    {
        proof {
            assert(all.skip(i as int)[0] == rs@[i as int]@);
            assert(all.skip(i as int).drop_first() =~= all.skip(i + 1));
        }
        if rs[i].origin == origin {
            return Some(rs[i].copy());
        }
        i = i + 1;
    }
    None
}

fn already_shown(rs: &Vec<RerankResult>, r: &RerankResult) -> (b: bool)
    ensures
        b == is_shown(reranker::result_views(rs@), r@),
{
    let ghost all = reranker::result_views(rs@);
    let mut i: usize = 0;
    while i < rs.len()
        invariant
            i <= rs@.len(),
            all == reranker::result_views(rs@),
            forall|j: int| 0 <= j < i ==> !shows_same(#[trigger] all[j], r@),
        decreases rs.len() - i,
    {
        assert(all[i as int] == rs@[i as int]@);
        if same_text(rs[i].source.as_str(), r.source.as_str()) && same_text(
            rs[i].text.as_str(),
            r.text.as_str(),
        ) {
            return true;
        }
        i = i + 1;
    }
    false
}

fn first_results(rs: &Vec<RerankResult>, limit: usize) -> (r: Vec<RerankResult>)
    ensures
        reranker::result_views(r@) == hits::at_most(reranker::result_views(rs@), limit as nat),
{
    let ghost all = reranker::result_views(rs@);
    let mut r: Vec<RerankResult> = Vec::new();
    let mut i: usize = 0;
    assert(reranker::result_views(r@) =~= all.take(0));
    while i < rs.len() && i < limit
        invariant
            i <= rs@.len(),
            i <= limit,
            all == reranker::result_views(rs@),
            reranker::result_views(r@) == all.take(i as int),
        decreases rs.len() - i,
    {
        let ghost before = reranker::result_views(r@);
        r.push(rs[i].copy());
        proof {
            assert(reranker::result_views(r@) =~= before.push(all[i as int]));
            assert(all.take(i + 1) =~= all.take(i as int).push(all[i as int]));
        }
        i = i + 1;
    }
    assert(all.take(all.len() as int) =~= all);
    r
}

/// Choose the results that are shown, so that passages do not disappear behind symbols, nor
/// symbols behind passages. The results come in falling order of their scores.
pub fn diversify_query_results(
    scored: &Vec<RerankResult>,
    limit: usize,
    has_codegraph: bool,
    has_docs: bool,
) -> (r: Vec<RerankResult>)
    ensures
        reranker::result_views(r@) == diversified(
            reranker::result_views(scored@),
            limit as nat,
            has_codegraph,
            has_docs,
        ),
{
    if !has_codegraph || !has_docs || limit <= 1 {
        return first_results(scored, limit);
    }
    let ghost all = reranker::result_views(scored@);
    let mut r: Vec<RerankResult> = Vec::new();
    match find_first(scored, RerankOrigin::Codegraph) {
        Some(c) => {
            let ghost cv = c@;
            r.push(c);
            assert(reranker::result_views(r@) =~= seq![cv]);
        },
        None => {
            assert(reranker::result_views(r@) =~= seq![]);
        },
    }
    match find_first(scored, RerankOrigin::Docs) {
        Some(d) => {
            if !already_shown(&r, &d) {
                let ghost before = reranker::result_views(r@);
                let ghost dv = d@;
                r.push(d);
                assert(reranker::result_views(r@) =~= before.push(dv));
            }
        },
        None => {},
    }
    let ghost lead = leaders(all);
    assert(reranker::result_views(r@) == lead);
    let mut i: usize = 0;
    assert(all.take(0) =~= seq![]);
    while i < scored.len()
        invariant
            i <= scored@.len(),
            all == reranker::result_views(scored@),
            reranker::result_views(r@) == filled(lead, all.take(i as int), limit as nat),
        decreases scored.len() - i,
    {
        proof {
            assert(all.take(i + 1).drop_last() =~= all.take(i as int));
            assert(all.take(i + 1).last() == scored@[i as int]@);
            assert(reranker::result_views(r@).len() == r@.len());
        }
        if r.len() < limit && !already_shown(&r, &scored[i]) {
            let ghost before = reranker::result_views(r@);
            r.push(scored[i].copy());
            assert(reranker::result_views(r@) =~= before.push(scored@[i as int]@));
        }
        i = i + 1;
    }
    assert(all.take(scored@.len() as int) =~= all);
    first_results(&r, limit)
}

proof fn lemma_filled_keeps(lead: Seq<ResultView>, rs: Seq<ResultView>, limit: nat)
    ensures
        filled(lead, rs, limit).len() >= lead.len(),
        filled(lead, rs, limit).take(lead.len() as int) =~= lead,
    decreases rs.len(),
{
    if rs.len() > 0 {
        lemma_filled_keeps(lead, rs.drop_last(), limit);
    }
}

/// Where a query finds symbols and passages and there is room for two, the best of both
/// kinds are shown.
pub proof fn both_kinds_are_shown(rs: Seq<ResultView>, limit: nat, code: ResultView, doc: ResultView)
    requires
        limit >= 2,
        first_of(rs, RerankOrigin::Codegraph) == Some(code),
        first_of(rs, RerankOrigin::Docs) == Some(doc),
    ensures
        diversified(rs, limit, true, true).contains(code),
        is_shown(diversified(rs, limit, true, true), doc),
        diversified(rs, limit, true, true).len() <= limit,
{
    let lead = leaders(rs);
    let all = filled(lead, rs, limit);
    let some = diversified(rs, limit, true, true);
    lemma_filled_keeps(lead, rs, limit);
    assert(lead[0] == code);
    assert(all.take(lead.len() as int)[0] == code);
    assert(all[0] == code);
    assert(some[0] == code);
    if is_shown(seq![code], doc) {
        let i = choose|i: int| 0 <= i < seq![code].len() && shows_same(#[trigger] seq![code][i], doc);
        assert(shows_same(some[0], doc));
    } else {
        assert(lead[1] == doc);
        assert(all.take(lead.len() as int)[1] == doc);
        assert(some[1] == doc);
        assert(shows_same(some[1], doc));
    }
}

/// Symbols and passages stand in turn as long as there are both, and then the rest of the
/// kind of which there are more, each kind in its order.
pub proof fn both_kinds_stand_in_turn(code: Seq<CandidateView>, docs: Seq<CandidateView>, i: int)
    ensures
        0 <= i < code.len() && i <= docs.len() ==> interleaved(code, docs)[2 * i] == code[i],
        0 <= i < code.len() && i > docs.len() ==> interleaved(code, docs)[docs.len() + i] == code[i],
        0 <= i < docs.len() && i < code.len() ==> interleaved(code, docs)[2 * i + 1] == docs[i],
        0 <= i < docs.len() && i >= code.len() ==> interleaved(code, docs)[code.len() + i]
            == docs[i],
    decreases code.len(),
{
    if code.len() > 0 && docs.len() > 0 {
        let c = code.drop_first();
        let d = docs.drop_first();
        both_kinds_stand_in_turn(c, d, i - 1);
        both_kinds_are_merged(c, d, 0);
        let rest = interleaved(c, d);
        let all = interleaved(code, docs);
        assert(all =~= seq![code[0], docs[0]] + rest);
        if i > 0 {
            if i < code.len() {
                assert(c[i - 1] == code[i]);
            }
            if i < docs.len() {
                assert(d[i - 1] == docs[i]);
            }
        }
    }
}

/// The best of a kind is the first of that kind.
pub proof fn the_best_of_a_kind_is_its_first(rs: Seq<ResultView>, origin: RerankOrigin, i: int)
    requires
        0 <= i < rs.len(),
        rs[i].candidate.origin == origin,
        forall|j: int| 0 <= j < i ==> (#[trigger] rs[j]).candidate.origin != origin,
    ensures
        first_of(rs, origin) == Some(rs[i]),
    decreases i,
{
    if i > 0 {
        assert(rs[0].candidate.origin != origin);
        let t = rs.drop_first();
        assert forall|j: int| 0 <= j < i - 1 implies (#[trigger] t[j]).candidate.origin != origin by {
            assert(t[j] == rs[j + 1]);
        }
        assert(t[i - 1] == rs[i]);
        the_best_of_a_kind_is_its_first(t, origin, i - 1);
    }
}

proof fn lemma_first_of(rs: Seq<ResultView>, origin: RerankOrigin)
    ensures
        first_of(rs, origin) matches Some(r) ==> rs.contains(r) && r.candidate.origin == origin,
        first_of(rs, origin) is None ==> forall|i: int|
            0 <= i < rs.len() ==> (#[trigger] rs[i]).candidate.origin != origin,
    decreases rs.len(),
{
    if rs.len() > 0 && rs[0].candidate.origin != origin {
        let t = rs.drop_first();
        lemma_first_of(t, origin);
        match first_of(t, origin) {
            Some(r) => {
                let i = choose|i: int| 0 <= i < t.len() && t[i] == r;
                assert(rs[i + 1] == r);
            },
            None => {
                assert forall|i: int| 0 <= i < rs.len() implies (#[trigger] rs[i]).candidate.origin
                    != origin by {
                    if i > 0 {
                        assert(rs[i] == t[i - 1]);
                    }
                }
            },
        }
    } else if rs.len() > 0 {
        assert(rs.contains(rs[0]));
    }
}

proof fn lemma_filled(lead: Seq<ResultView>, rs: Seq<ResultView>, limit: nat)
    ensures
        forall|i: int|
            0 <= i < filled(lead, rs, limit).len() ==> lead.contains(
                #[trigger] filled(lead, rs, limit)[i],
            ) || rs.contains(filled(lead, rs, limit)[i]),
        filled(lead, rs, limit).len() < limit ==> forall|i: int|
            0 <= i < rs.len() ==> is_shown(filled(lead, rs, limit), #[trigger] rs[i]),
    decreases rs.len(),
{
    if rs.len() > 0 {
        let t = rs.drop_last();
        lemma_filled(lead, t, limit);
        let before = filled(lead, t, limit);
        let after = filled(lead, rs, limit);
        assert forall|i: int| 0 <= i < after.len() implies lead.contains(#[trigger] after[i])
            || rs.contains(after[i]) by {
            if i < before.len() {
                assert(after[i] == before[i]);
                if !lead.contains(before[i]) {
                    let j = choose|j: int| 0 <= j < t.len() && t[j] == before[i];
                    assert(rs[j] == after[i]);
                }
            } else {
                assert(rs[rs.len() - 1] == after[i]);
            }
        }
        if after.len() < limit {
            assert forall|i: int| 0 <= i < rs.len() implies is_shown(after, #[trigger] rs[i]) by {
                if i < t.len() {
                    assert(t[i] == rs[i]);
                    assert(is_shown(before, t[i]));
                    let j = choose|j: int|
                        0 <= j < before.len() && shows_same(#[trigger] before[j], t[i]);
                    assert(shows_same(after[j], rs[i]));
                } else if !is_shown(before, rs.last()) {
                    assert(after[before.len() as int] == rs[i]);
                    assert(shows_same(after[before.len() as int], rs[i]));
                }
            }
        }
    }
}

/// What is shown was found, and while there is room everything that was found is shown: every
/// result, or one with the same source and text.
pub proof fn nothing_is_hidden_while_there_is_room(
    rs: Seq<ResultView>,
    limit: nat,
    has_codegraph: bool,
    has_docs: bool,
    i: int,
)
    requires
        0 <= i < rs.len(),
        diversified(rs, limit, has_codegraph, has_docs).len() < limit,
    ensures
        exists|j: int|
            0 <= j < diversified(rs, limit, has_codegraph, has_docs).len() && (
            #[trigger] diversified(rs, limit, has_codegraph, has_docs)[j]).candidate.source
                == rs[i].candidate.source && diversified(
                rs,
                limit,
                has_codegraph,
                has_docs,
            )[j].candidate.text == rs[i].candidate.text,
{
    let d = diversified(rs, limit, has_codegraph, has_docs);
    if !has_codegraph || !has_docs || limit <= 1 {
        assert(d[i] == rs[i]);
    } else {
        let lead = leaders(rs);
        lemma_filled(lead, rs, limit);
        assert(d == filled(lead, rs, limit));
        assert(is_shown(d, rs[i]));
        let j = choose|j: int| 0 <= j < d.len() && shows_same(#[trigger] d[j], rs[i]);
        assert(d[j].candidate.source == rs[i].candidate.source);
    }
}

/// What is shown was found, and there is no more of it than asked for.
pub proof fn only_what_was_found_is_shown(
    rs: Seq<ResultView>,
    limit: nat,
    has_codegraph: bool,
    has_docs: bool,
    j: int,
)
    requires
        0 <= j < diversified(rs, limit, has_codegraph, has_docs).len(),
    ensures
        rs.contains(diversified(rs, limit, has_codegraph, has_docs)[j]),
        diversified(rs, limit, has_codegraph, has_docs).len() <= limit,
{
    let d = diversified(rs, limit, has_codegraph, has_docs);
    if !has_codegraph || !has_docs || limit <= 1 {
        assert(d[j] == rs[j]);
    } else {
        let lead = leaders(rs);
        let all = filled(lead, rs, limit);
        lemma_filled(lead, rs, limit);
        lemma_first_of(rs, RerankOrigin::Codegraph);
        lemma_first_of(rs, RerankOrigin::Docs);
        assert(d[j] == all[j]);
        if lead.contains(d[j]) {
            let k = choose|k: int| 0 <= k < lead.len() && lead[k] == d[j];
            assert(rs.contains(lead[k]));
        }
    }
}

} // verus!
