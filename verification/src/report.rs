//! What the tools say: hits, symbols and passages in Markdown.

use vstd::prelude::*;

use crate::hits;
use crate::hits::{is_said, HitView, UnifiedHit};
use crate::json;
use crate::json::{read_list, Json, JsonView};
use crate::lance;
use crate::lance::{show_place, LanceMetadata, SearchResult, SymbolCandidate, SymbolLookup, SymbolSource};
use crate::pieces;
use crate::pieces::{byte_size, join_texts, lines_of, split_class, write_decimal};
use crate::rank;
use crate::rank::{order_falling, places, Score, ScoreView, ZERO_KEY};
use crate::reranker;
use crate::reranker::{RerankResult, ResultView};
use crate::search;
use crate::search::ScoredPlace;
use crate::symbols;
use crate::symbols::{fmt_codegraph_hit, fmt_items, label_of, mark_score, node_of};
use crate::text;
use crate::text::{chars_of, contains_text, same_text, string_of, trim_class, CharClass};

verus! {

// ---------------------------------------------------------------------------
// Where a query matched
// ---------------------------------------------------------------------------

/// The name and the signature of a hit.
pub open spec fn haystack(h: HitView) -> Seq<char> {
    let name = match h.symbol {
        Some(s) => s + " "@,
        None => seq![],
    };
    match h.signature {
        Some(s) => name + s,
        None => name,
    }
}

/// The words of a query that mean something: those of three bytes and more.
pub open spec fn terms(ps: Seq<Seq<char>>) -> Seq<Seq<char>>
    decreases ps.len(),
{
    if ps.len() == 0 {
        seq![]
    } else {
        let before = terms(ps.drop_last());
        if pieces::byte_len(ps.last()) >= 3 {
            before.push(text::lowercased(ps.last()))
        } else {
            before
        }
    }
}

/// How many of the terms a text has.
pub open spec fn matched(ts: Seq<Seq<char>>, hay: Seq<char>) -> nat
    decreases ts.len(),
{
    if ts.len() == 0 {
        0
    } else {
        let before = matched(ts.drop_last(), hay);
        if text::has_text(hay, ts.last()) {
            before + 1
        } else {
            before
        }
    }
}

/// A query hit the name or the signature: at least half of its terms stand there.
pub open spec fn hits_name(query: Seq<char>, h: HitView) -> bool {
    let hay = text::lowercased(haystack(h));
    let ts = terms(pieces::split(query, CharClass::NotAlnum));
    text::trim(hay, CharClass::Space).len() > 0 && ts.len() > 0 && matched(ts, hay) * 2 >= ts.len()
}

/// Whether the query matched the name or the signature, and not only the body.
pub fn query_matches_name_or_signature(query: &str, h: &UnifiedHit) -> (r: bool)
    ensures
        r == hits_name(query@, h@),
{
    let mut hay = String::new();
    match &h.symbol {
        Some(s) => {
            hay.append(s.as_str());
            hay.append(" ");
        },
        None => {},
    }
    match &h.signature {
        Some(s) => {
            hay.append(s.as_str());
        },
        None => {},
    }
    assert(hay@ =~= haystack(h@));
    let low = hay.as_str().to_lowercase();
    let cs = chars_of(low.as_str());
    if trim_class(cs.as_slice(), CharClass::Space).len() == 0 {
        return false;
    }
    let qs = chars_of(query);
    let ps = split_class(qs.as_slice(), CharClass::NotAlnum);
    let ghost all = pieces::rows(ps@);
    let ghost hl = low@;
    let mut total: u128 = 0;
    let mut found: u128 = 0;
    let mut i: usize = 0;
    proof {
        assert(all.take(0) =~= seq![]);
    }
    while i < ps.len()
        invariant
            i <= ps@.len(),
            i <= usize::MAX,
            all == pieces::rows(ps@),
            hl == low@,
            found <= total <= i,
            total == terms(all.take(i as int)).len(),
            found == matched(terms(all.take(i as int)), hl),
        decreases ps.len() - i,
    {
        let t = string_of(ps[i].as_slice());
        proof {
            assert(all.take(i + 1).drop_last() =~= all.take(i as int));
            assert(all.take(i + 1).last() == t@);
        }
        if byte_size(t.as_str()) >= 3 {
            let l = t.as_str().to_lowercase();
            total = total + 1;
            proof {
                let ts = terms(all.take(i + 1));
                assert(ts.drop_last() =~= terms(all.take(i as int)));
                assert(ts.last() == l@);
            }
            if contains_text(low.as_str(), l.as_str()) {
                found = found + 1;
            }
        }
        i = i + 1;
    }
    assert(all.take(ps@.len() as int) =~= all);
    total > 0 && found * 2 >= total
}

// ---------------------------------------------------------------------------
// A hit
// ---------------------------------------------------------------------------

/// The lines of a hit.
pub open spec fn lines_text(start: u32, end: u32) -> Seq<char> {
    if start > 0 && end > 0 {
        pieces::decimal(start as nat) + " – "@ + pieces::decimal(end as nat)
    } else if start > 0 {
        pieces::decimal(start as nat)
    } else {
        "—"@
    }
}

/// How many lines a symbol has beyond its window, where that is worth saying.
pub open spec fn more_lines(h: HitView, window: Seq<char>) -> Option<nat> {
    let total = h.end_line - h.start_line + 1;
    let shown = pieces::lines(window).len();
    if h.start_line > 0 && h.end_line > h.start_line && (h.kwic_count > 1 || total > shown + 2) {
        Some(
            if total > shown {
                (total - shown) as nat
            } else {
                0
            },
        )
    } else {
        None
    }
}

/// The code of a hit. Where the query matched the name or the signature, the heading shows
/// what it matched and the code is left out. Otherwise the best window is shown, with how
/// to read the rest, and where there is no window, the snippet.
pub open spec fn code_block(h: HitView, query: Seq<char>) -> Seq<char> {
    match h.best_window {
        Some(w) => if hits_name(query, h) {
            seq![]
        } else {
            let shown = "\n```\n"@ + w + "\n```"@;
            match more_lines(h, w) {
                Some(n) => shown + "\n*+"@ + pieces::decimal(n)
                    + " more lines — call `read_code` with package `"@ + h.package + "`, file `"@
                    + h.path + "`, line `"@ + pieces::decimal(h.start_line as nat) + "`*"@,
                None => shown,
            }
        },
        None => if h.snippet.len() == 0 {
            seq![]
        } else {
            "\n```\n"@ + h.snippet + "\n```"@
        },
    }
}

/// A hit in Markdown: a heading, a table of where it is, its signature and its code.
pub open spec fn section(h: HitView, query: Seq<char>, rank: nat, score: Option<Seq<char>>) -> Seq<
    char,
> {
    let label = if hits::said(h.symbol) {
        h.symbol->0
    } else {
        h.path
    };
    let kind = if hits::said(h.kind) {
        " ("@ + h.kind->0 + ")"@
    } else {
        seq![]
    };
    let scored = match score {
        Some(s) => " · score "@ + s,
        None => seq![],
    };
    let signature = if hits::said(h.signature) {
        "\n**Signature:** `"@ + h.signature->0 + "`"@
    } else {
        seq![]
    };
    "### "@ + pieces::decimal(rank) + ". `"@ + label + "`"@ + kind + scored
        + "\n\n| Field | Value |\n|-------|-------|\n| **Package** | `"@ + h.package
        + "` |\n| **Origin** | "@ + hits::origin_name(h.origin) + " |\n| **Source** | `"@ + h.path
        + "` |\n| **Lines** | "@ + lines_text(h.start_line, h.end_line) + " |"@ + signature
        + code_block(h, query)
}

fn show_lines(start: u32, end: u32) -> (r: String)
    ensures
        r@ == lines_text(start, end),
{
    if start > 0 && end > 0 {
        let mut r = write_decimal(start as u64);
        r.append(" – ");
        r.append(write_decimal(end as u64).as_str());
        r
    } else if start > 0 {
        write_decimal(start as u64)
    } else {
        "—".to_owned()
    }
}

fn count_more_lines(h: &UnifiedHit, window: &str) -> (r: Option<u64>)
    ensures
        match r {
            Some(n) => more_lines(h@, window@) == Some(n as nat),
            None => more_lines(h@, window@) is None,
        },
{
    if h.start_line > 0 && h.end_line > h.start_line {
        let total: u64 = (h.end_line - h.start_line) as u64 + 1;
        let cs = chars_of(window);
        let ls = lines_of(cs.as_slice());
        assert(pieces::rows(ls@).len() == ls@.len());
        let shown: usize = ls.len();
        if h.kwic_count > 1 || total as u128 > shown as u128 + 2 {
            if total > shown as u64 {
                return Some(total - shown as u64);
            }
            return Some(0);
        }
    }
    None
}

fn show_code(h: &UnifiedHit, query: &str) -> (r: String)
    ensures
        r@ == code_block(h@, query@),
{
    let mut r = String::new();
    assert(r@ =~= seq![]);
    match &h.best_window {
        Some(w) => {
            if query_matches_name_or_signature(query, h) {
                return r;
            }
            let mut t = "\n```\n".to_owned();
            t.append(w.as_str());
            t.append("\n```");
            match count_more_lines(h, w.as_str()) {
                Some(n) => {
                    t.append("\n*+");
                    t.append(write_decimal(n).as_str());
                    t.append(" more lines — call `read_code` with package `");
                    t.append(h.package.as_str());
                    t.append("`, file `");
                    t.append(h.path.as_str());
                    t.append("`, line `");
                    t.append(write_decimal(h.start_line as u64).as_str());
                    t.append("`*");
                },
                None => {},
            }
            t
        },
        None => {
            if h.snippet.as_str().is_empty() {
                return r;
            }
            let mut t = "\n```\n".to_owned();
            t.append(h.snippet.as_str());
            t.append("\n```");
            t
        },
    }
}

fn show_opt(before: &str, t: &Option<String>, after: &str) -> (r: String)
    ensures
        r@ == (if hits::said(pieces::opt_text(*t)) {
            before@ + pieces::opt_text(*t)->0 + after@
        } else {
            seq![]
        }),
{
    let mut r = String::new();
    assert(r@ =~= seq![]);
    match t {
        Some(s) => {
            if !s.as_str().is_empty() {
                let mut x = before.to_owned();
                x.append(s.as_str());
                x.append(after);
                return x;
            }
        },
        None => {},
    }
    r
}

/// Show a hit in Markdown.
pub fn format_unified_hit(h: &UnifiedHit, query: &str, rank: u64, score: Option<&str>) -> (r:
    String)
    ensures
        r@ == section(h@, query@, rank as nat, pieces::opt_str(score)),
{
    let mut r = "### ".to_owned();
    r.append(write_decimal(rank).as_str());
    r.append(". `");
    if is_said(&h.symbol) {
        match &h.symbol {
            Some(s) => {
                r.append(s.as_str());
            },
            None => {},
        }
    } else {
        r.append(h.path.as_str());
    }
    r.append("`");
    let ghost one = r@;
    r.append(show_opt(" (", &h.kind, ")").as_str());
    let mut scored = String::new();
    assert(scored@ =~= seq![]);
    match score {
        Some(s) => {
            scored = " · score ".to_owned();
            scored.append(s);
        },
        None => {},
    }
    r.append(scored.as_str());
    r.append("\n\n| Field | Value |\n|-------|-------|\n| **Package** | `");
    r.append(h.package.as_str());
    r.append("` |\n| **Origin** | ");
    r.append(h.origin.as_str());
    r.append(" |\n| **Source** | `");
    r.append(h.path.as_str());
    r.append("` |\n| **Lines** | ");
    r.append(show_lines(h.start_line, h.end_line).as_str());
    r.append(" |");
    r.append(show_opt("\n**Signature:** `", &h.signature, "`").as_str());
    r.append(show_code(h, query).as_str());
    r
}

// ---------------------------------------------------------------------------
// The answer to a query
// ---------------------------------------------------------------------------

/// What is said where no index has anything for a query.
pub open spec fn nothing_text(query: Seq<char>) -> Seq<char> {
    "No results found for: `"@ + query
        + "`\n\nMake sure at least one package is indexed or a bundle with a code/docs index is installed (`sempkg list`)."@
}

/// What is said where no index has anything for a query.
pub fn nothing_found(query: &str) -> (r: String)
    ensures
        r@ == nothing_text(query@),
{
    let mut r = "No results found for: `".to_owned();
    r.append(query);
    r.append(
        "`\n\nMake sure at least one package is indexed or a bundle with a code/docs index is installed (`sempkg list`).",
    );
    r
}

/// The hits that are shown, with their scores where any of them is above zero.
pub open spec fn sections(
    hs: Seq<HitView>,
    shown: Seq<search::Placed>,
    pool: Seq<int>,
    query: Seq<char>,
) -> Seq<Seq<char>> {
    let scored = exists|i: int|
        0 <= i < shown.len() && (#[trigger] shown[i]).score.key > ZERO_KEY;
    Seq::new(
        shown.len(),
        |i: int|
            section(
                hs[pool[shown[i].place]],
                query,
                (i + 1) as nat,
                if scored {
                    Some(shown[i].score.long)
                } else {
                    None
                },
            ),
    )
}

fn any_score(shown: &Vec<ScoredPlace>) -> (r: bool)
    ensures
        r == exists|i: int|
            0 <= i < search::placed_views(shown@).len() && (#[trigger] search::placed_views(
                shown@,
            )[i]).score.key > ZERO_KEY,
{
    let ghost ps = search::placed_views(shown@);
    let mut i: usize = 0;
    while i < shown.len()
        invariant
            i <= shown@.len(),
            ps == search::placed_views(shown@),
            forall|j: int| 0 <= j < i ==> (#[trigger] ps[j]).score.key <= ZERO_KEY,
        decreases shown.len() - i,
    {
        assert(ps[i as int].score.key == shown@[i as int].score.key);
        if shown[i].score.key > ZERO_KEY {
            return true;
        }
        i = i + 1;
    }
    false
}

/// The answer to a query: `pool` holds the hits that were looked at, and `shown` those that
/// are left, in order, each by its place in the pool.
pub open spec fn answer_text(
    hs: Seq<HitView>,
    pool: Seq<int>,
    shown: Seq<search::Placed>,
    query: Seq<char>,
    reranked: bool,
) -> Seq<char> {
    if shown.len() > 0 {
        "## Query results for: `"@ + query + "`\n\n"@ + pieces::join(
            sections(hs, shown, pool, query),
            "\n\n---\n\n"@,
        ) + "\n"@
    } else if reranked {
        "No relevant results for: `"@ + query
            + "`\n\nAll candidates scored below the relevance floor (0.10). Try rephrasing the query or use `search_code`, `search_docs`, or `search_symbols` to inspect a specific package directly."@
    } else {
        "No results for: `"@ + query + "`."@
    }
}

/// The answer to a query. `pool` holds the hits that were looked at, and `shown` those
/// that are left, in order, each by its place in the pool.
pub fn query_report(
    hits: &Vec<UnifiedHit>,
    pool: &Vec<usize>,
    shown: &Vec<ScoredPlace>,
    query: &str,
    reranked: bool,
) -> (r: String)
    requires
        forall|i: int| 0 <= i < pool@.len() ==> #[trigger] pool@[i] < hits@.len(),
        forall|i: int| 0 <= i < shown@.len() ==> (#[trigger] shown@[i]).place < pool@.len(),
    ensures
        r@ == answer_text(
            hits::hit_views(hits@),
            places(pool@),
            search::placed_views(shown@),
            query@,
            reranked,
        ),
{
    if shown.len() == 0 {
        if reranked {
            let mut r = "No relevant results for: `".to_owned();
            r.append(query);
            r.append(
                "`\n\nAll candidates scored below the relevance floor (0.10). Try rephrasing the query or use `search_code`, `search_docs`, or `search_symbols` to inspect a specific package directly.",
            );
            return r;
        }
        let mut r = "No results for: `".to_owned();
        r.append(query);
        r.append("`.");
        return r;
    }
    let scored = any_score(shown);
    let ghost hs = hits::hit_views(hits@);
    let ghost ps = search::placed_views(shown@);
    let ghost want = sections(hs, ps, places(pool@), query@);
    let mut parts: Vec<String> = Vec::new();
    let mut i: usize = 0;
    assert(pieces::texts(parts@) =~= want.take(0));
    while i < shown.len()
        invariant
            i <= shown@.len(),
            i <= usize::MAX,
            hs == hits::hit_views(hits@),
            ps == search::placed_views(shown@),
            want == sections(hs, ps, places(pool@), query@),
            scored == exists|j: int| 0 <= j < ps.len() && (#[trigger] ps[j]).score.key > ZERO_KEY,
            forall|j: int| 0 <= j < pool@.len() ==> #[trigger] pool@[j] < hits@.len(),
            forall|j: int| 0 <= j < shown@.len() ==> (#[trigger] shown@[j]).place < pool@.len(),
            pieces::texts(parts@) == want.take(i as int),
        decreases shown.len() - i,
    {
        let at: usize = pool[shown[i].place];
        let ghost before = pieces::texts(parts@);
        proof {
            assert(ps[i as int] == shown@[i as int]@);
            assert(places(pool@)[shown@[i as int].place as int] == at);
            assert(hs[at as int] == hits@[at as int]@);
        }
        let score = if scored {
            Some(shown[i].score.long.as_str())
        } else {
            None
        };
        parts.push(format_unified_hit(&hits[at], query, i as u64 + 1, score));
        proof {
            assert(parts@.last()@ == want[i as int]);
            assert(pieces::texts(parts@) =~= before.push(want[i as int]));
            assert(want.take(i + 1) =~= want.take(i as int).push(want[i as int]));
        }
        i = i + 1;
    }
    assert(want.take(shown@.len() as int) =~= want);
    let mut r = "## Query results for: `".to_owned();
    r.append(query);
    r.append("`\n\n");
    r.append(join_texts(&parts, "\n\n---\n\n").as_str());
    r.append("\n");
    r
}

// ---------------------------------------------------------------------------
// Rows of a table
// ---------------------------------------------------------------------------

/// A row in Markdown, with its score where it has one.
pub open spec fn row_text(r: SearchResult, score: Option<Seq<char>>) -> Seq<char> {
    match r.symbol {
        Some(sym) => {
            let kind = match r.kind {
                Some(k) => k@,
                None => "symbol"@,
            };
            let head = symbols::score_mark(score) + sym@ + " ("@ + kind + ") @ "@
                + lance::place_text(r);
            let signed = if hits::said(pieces::opt_text(r.signature)) {
                head + "\n"@ + pieces::opt_text(r.signature)->0
            } else {
                head
            };
            signed + "\n\n```\n"@ + r.snippet@ + "\n```"@
        },
        None => symbols::score_mark(score) + lance::place_text(r) + "\n\n"@ + r.snippet@,
    }
}

/// Show a row of a table.
pub fn fmt_lance_result(r: &SearchResult, score: Option<&str>) -> (t: String)
    ensures
        t@ == row_text(*r, pieces::opt_str(score)),
{
    let mut t = mark_score(score);
    match &r.symbol {
        Some(sym) => {
            t.append(sym.as_str());
            t.append(" (");
            match &r.kind {
                Some(k) => {
                    t.append(k.as_str());
                },
                None => {
                    t.append("symbol");
                },
            }
            t.append(") @ ");
            t.append(show_place(r).as_str());
            match &r.signature {
                Some(s) => {
                    if !s.as_str().is_empty() {
                        t.append("\n");
                        t.append(s.as_str());
                    }
                },
                None => {},
            }
            t.append("\n\n```\n");
            t.append(r.snippet.as_str());
            t.append("\n```");
        },
        None => {
            t.append(show_place(r).as_str());
            t.append("\n\n");
            t.append(r.snippet.as_str());
        },
    }
    t
}

/// The score that was last given to a source.
pub open spec fn score_at(rs: Seq<ResultView>, source: Seq<char>) -> Option<ScoreView>
    decreases rs.len(),
{
    if rs.len() == 0 {
        None
    } else if rs.last().candidate.source == source {
        Some(rs.last().score)
    } else {
        score_at(rs.drop_last(), source)
    }
}

fn find_score<'a>(rs: &'a Vec<RerankResult>, n: usize, source: &str) -> (r: Option<&'a Score>)
    requires
        n <= rs@.len(),
    ensures
        match r {
            Some(s) => score_at(reranker::result_views(rs@).take(n as int), source@) == Some(s@),
            None => score_at(reranker::result_views(rs@).take(n as int), source@) is None,
        },
{
    let ghost all = reranker::result_views(rs@);
    let mut i: usize = n;
    while i > 0
        invariant
            i <= n <= rs@.len(),
            all == reranker::result_views(rs@),
            score_at(all.take(n as int), source@) == score_at(all.take(i as int), source@),
        decreases i,
    {
        proof {
            assert(all.take(i as int).drop_last() =~= all.take(i - 1));
            assert(all.take(i as int).last() == rs@[i - 1]@);
        }
        i = i - 1;
        if same_text(rs[i].source.as_str(), source) {
            return Some(&rs[i].score);
        }
    }
    assert(all.take(0) =~= seq![]);
    None
}

/// Rows of a table, as they came.
pub fn fmt_lance_results(results: &Vec<SearchResult>) -> (t: String)
    ensures
        t@ == (if results@.len() == 0 {
            "No results."@
        } else {
            pieces::join(
                results@.map_values(|r: SearchResult| row_text(r, None)),
                "\n\n---\n\n"@,
            )
        }),
{
    if results.len() == 0 {
        return "No results.".to_owned();
    }
    let mut parts: Vec<String> = Vec::new();
    let ghost want = results@.map_values(|r: SearchResult| row_text(r, None));
    let mut i: usize = 0;
    assert(pieces::texts(parts@) =~= want.take(0));
    while i < results.len()
        invariant
            i <= results@.len(),
            want == results@.map_values(|r: SearchResult| row_text(r, None)),
            pieces::texts(parts@) == want.take(i as int),
        decreases results.len() - i,
    {
        let ghost before = pieces::texts(parts@);
        parts.push(fmt_lance_result(&results[i], None));
        proof {
            assert(pieces::texts(parts@) =~= before.push(want[i as int]));
            assert(want.take(i + 1) =~= want.take(i as int).push(want[i as int]));
        }
        i = i + 1;
    }
    assert(want.take(results@.len() as int) =~= want);
    join_texts(&parts, "\n\n---\n\n")
}

/// A row that was scored, and its score.
pub ghost struct ScoredRow {
    pub row: SearchResult,
    pub score: ScoreView,
}

/// The rows that were scored, with their scores.
pub open spec fn scored_rows(rows: Seq<SearchResult>, rs: Seq<ResultView>) -> Seq<ScoredRow>
    decreases rows.len(),
{
    if rows.len() == 0 {
        seq![]
    } else {
        let before = scored_rows(rows.drop_last(), rs);
        match score_at(rs, lance::place_text(rows.last())) {
            Some(s) => before.push(ScoredRow { row: rows.last(), score: s }),
            None => before,
        }
    }
}

/// The rows that were scored, best first, with their scores.
pub open spec fn ranked_rows(rows: Seq<SearchResult>, rs: Seq<ResultView>) -> Seq<Seq<char>> {
    let sr = scored_rows(rows, rs);
    let order = rank::falling(sr.map_values(|x: ScoredRow| x.score.key));
    Seq::new(sr.len(), |i: int| row_text(sr[order[i]].row, Some(sr[order[i]].score.short)))
}

/// Show the rows of a table that were scored, in the order of the scores of their places.
pub fn apply_rerank_to_lance(
    results: &Vec<SearchResult>,
    scored: &Vec<RerankResult>,
    output_n: usize,
) -> (t: String)
    ensures
        ({
            let rs = hits::at_most(reranker::result_views(scored@), output_n as nat);
            t@ == (if scored_rows(results@, rs).len() == 0 {
                "No results."@
            } else {
                pieces::join(ranked_rows(results@, rs), "\n\n---\n\n"@)
            })
        }),
{
    let n: usize = if output_n < scored.len() {
        output_n
    } else {
        scored.len()
    };
    let ghost rs = reranker::result_views(scored@).take(n as int);
    proof {
        let all = reranker::result_views(scored@);
        assert(all.take(all.len() as int) =~= all);
    }
    let mut kept: Vec<usize> = Vec::new();
    let mut scores: Vec<Score> = Vec::new();
    let mut keys: Vec<u64> = Vec::new();
    let mut i: usize = 0;
    assert(results@.take(0) =~= seq![]);
    let ghost mut sr: Seq<ScoredRow> = seq![];
    while i < results.len()
        invariant
            i <= results@.len(),
            n <= scored@.len(),
            rs == reranker::result_views(scored@).take(n as int),
            sr == scored_rows(results@.take(i as int), rs),
            kept@.len() == sr.len(),
            scores@.len() == sr.len(),
            keys@.len() == sr.len(),
            forall|j: int|
                0 <= j < sr.len() ==> #[trigger] kept@[j] < results@.len() && sr[j]
                    == (ScoredRow { row: results@[kept@[j] as int], score: scores@[j]@ })
                    && keys@[j] == sr[j].score.key,
        decreases results.len() - i,
    {
        proof {
            assert(results@.take(i + 1).drop_last() =~= results@.take(i as int));
            assert(results@.take(i + 1).last() == results@[i as int]);
        }
        let at = show_place(&results[i]);
        match find_score(scored, n, at.as_str()) {
            Some(s) => {
                kept.push(i);
                keys.push(s.key);
                scores.push(s.copy());
            },
            None => {},
        }
        proof {
            sr = scored_rows(results@.take(i + 1), rs);
        }
        i = i + 1;
    }
    proof {
        assert(results@.take(results@.len() as int) =~= results@);
    }
    if kept.len() == 0 {
        return "No results.".to_owned();
    }
    let order = order_falling(&keys);
    let ghost want = ranked_rows(results@, rs);
    proof {
        assert forall|j: int| 0 <= j < sr.len() implies keys@[j] == (
        #[trigger] sr[j]).score.key by {
            assert(kept@[j] < results@.len());
        }
        assert(keys@ =~= sr.map_values(|x: ScoredRow| x.score.key));
        rank::falling_is_in_order(keys@);
        assert(places(order@).len() == order@.len());
    }
    let mut parts: Vec<String> = Vec::new();
    let mut k: usize = 0;
    assert(pieces::texts(parts@) =~= want.take(0));
    while k < order.len()
        invariant
            k <= order@.len(),
            order@.len() == sr.len(),
            kept@.len() == sr.len(),
            scores@.len() == sr.len(),
            want.len() == sr.len(),
            sr == scored_rows(results@, rs),
            places(order@) == rank::falling(sr.map_values(|x: ScoredRow| x.score.key)),
            want == ranked_rows(results@, rs),
            forall|j: int| 0 <= j < order@.len() ==> #[trigger] order@[j] < sr.len(),
            forall|j: int|
                0 <= j < sr.len() ==> #[trigger] kept@[j] < results@.len() && sr[j]
                    == (ScoredRow { row: results@[kept@[j] as int], score: scores@[j]@ }),
            pieces::texts(parts@) == want.take(k as int),
        decreases order.len() - k,
    {
        let o: usize = order[k];
        let ghost before = pieces::texts(parts@);
        assert(places(order@)[k as int] == o);
        assert(kept@[o as int] < results@.len());
        parts.push(fmt_lance_result(&results[kept[o]], Some(scores[o].short.as_str())));
        proof {
            assert(parts@.last()@ == want[k as int]);
            assert(pieces::texts(parts@) =~= before.push(want[k as int]));
            assert(want.take(k + 1) =~= want.take(k as int).push(want[k as int]));
        }
        k = k + 1;
    }
    assert(want.take(order@.len() as int) =~= want);
    join_texts(&parts, "\n\n---\n\n")
}

// ---------------------------------------------------------------------------
// Symbols in the order of their scores
// ---------------------------------------------------------------------------

/// What the symbols of an answer are called.
pub open spec fn item_labels(items: Seq<JsonView>) -> Seq<Seq<char>> {
    items.map_values(|v: JsonView| symbols::label(symbols::node(v)))
}

/// The first item of a name that is not taken yet, from a place on, or the number of
/// items.
pub open spec fn next_item(labels: Seq<Seq<char>>, name: Seq<char>, taken: Seq<int>, i: int) -> int
    decreases labels.len() - i,
{
    if i >= labels.len() {
        labels.len() as int
    } else if labels[i] == name && !taken.contains(i) {
        i
    } else {
        next_item(labels, name, taken, i + 1)
    }
}

/// The items that results name, in the order of the results. Results of the same name take
/// the items of that name one after another. What is not called anything is not taken.
pub open spec fn picked(labels: Seq<Seq<char>>, names: Seq<Seq<char>>) -> Seq<int>
    decreases names.len(),
{
    if names.len() == 0 {
        seq![]
    } else {
        let before = picked(labels, names.drop_last());
        let i = next_item(labels, names.last(), before, 0);
        if i < labels.len() && names.last().len() > 0 {
            before.push(i)
        } else {
            before
        }
    }
}

/// What the results name.
pub open spec fn result_names(rs: Seq<ResultView>) -> Seq<Seq<char>> {
    rs.map_values(|r: ResultView| r.candidate.source)
}

/// What becomes of an answer after reranking.
#[derive(Debug)]
pub enum Reordered {
    /// It stays as it is.
    AsIs,
    /// It is a list of these items.
    Items(Vec<Json>),
}

fn has_place(v: &Vec<usize>, n: usize) -> (r: bool)
    ensures
        r == places(v@).contains(n as int),
{
    let mut i: usize = 0;
    while i < v.len()
        invariant
            i <= v@.len(),
            forall|j: int| 0 <= j < i ==> #[trigger] v@[j] != n,
        decreases v.len() - i,
    {
        if v[i] == n {
            assert(places(v@)[i as int] == n);
            return true;
        }
        i = i + 1;
    }
    proof {
        if places(v@).contains(n as int) {
            let j = choose|j: int| 0 <= j < places(v@).len() && places(v@)[j] == n;
            assert(v@[j] == n);
        }
    }
    false
}

fn find_item(labels: &Vec<String>, name: &str, taken: &Vec<usize>) -> (r: usize)
    ensures
        r == next_item(pieces::texts(labels@), name@, places(taken@), 0),
        r <= labels@.len(),
{
    let ghost ls = pieces::texts(labels@);
    let mut i: usize = 0;
    while i < labels.len()
        invariant
            i <= labels@.len(),
            ls == pieces::texts(labels@),
            next_item(ls, name@, places(taken@), 0) == next_item(
                ls,
                name@,
                places(taken@),
                i as int,
            ),
        decreases labels.len() - i,
    {
        assert(ls[i as int] == labels@[i as int]@);
        if same_text(labels[i].as_str(), name) && !has_place(taken, i) {
            return i;
        }
        i = i + 1;
    }
    labels.len()
}

/// What is left of items: those of the best scores, by name, each at most once. Items
/// without a symbol, and those of which none is scored, stay as they are.
pub open spec fn is_reordered(
    r: Reordered,
    items: Seq<JsonView>,
    scored: Seq<ResultView>,
    output_n: nat,
) -> bool {
    let names = result_names(hits::at_most(scored, output_n));
    let found = picked(item_labels(items), names);
    if reranker::symbol_candidates(items).len() == 0 || (names.len() > 0 && found.len() == 0) {
        r == Reordered::AsIs
    } else {
        r is Items && json::trees(r->Items_0@) == found.map_values(|i: int| items[i])
    }
}

/// Pick items in the order of their scores. Items without a symbol, and those of which
/// none is scored, stay as they are.
pub fn reorder_items(items: Vec<Json>, scored: &Vec<RerankResult>, output_n: usize) -> (r: Reordered)
    ensures
        is_reordered(r, json::trees(items@), reranker::result_views(scored@), output_n as nat),
{
    let candidates = reranker::items_to_candidates(&items);
    assert(reranker::candidate_views(candidates@).len() == candidates@.len());
    if candidates.len() == 0 {
        return Reordered::AsIs;
    }
    let ghost ls = item_labels(json::trees(items@));
    let mut labels: Vec<String> = Vec::new();
    let mut i: usize = 0;
    proof {
        json::lemma_trees(items@);
        assert(pieces::texts(labels@) =~= ls.take(0));
    }
    while i < items.len()
        invariant
            i <= items@.len(),
            ls.len() == items@.len(),
            forall|j: int|
                0 <= j < items@.len() ==> ls[j] == symbols::label(
                    symbols::node((#[trigger] items@[j])@),
                ),
            pieces::texts(labels@) == ls.take(i as int),
        decreases items.len() - i,
    {
        let ghost before = pieces::texts(labels@);
        labels.push(label_of(node_of(&items[i])));
        proof {
            assert(ls[i as int] == symbols::label(symbols::node(items@[i as int]@)));
            assert(pieces::texts(labels@) =~= before.push(ls[i as int]));
            assert(ls.take(i + 1) =~= ls.take(i as int).push(ls[i as int]));
        }
        i = i + 1;
    }
    assert(ls.take(items@.len() as int) =~= ls);
    let n: usize = if output_n < scored.len() {
        output_n
    } else {
        scored.len()
    };
    let ghost all = reranker::result_views(scored@);
    let ghost names = result_names(hits::at_most(all, output_n as nat));
    let mut found: Vec<usize> = Vec::new();
    let mut k: usize = 0;
    proof {
        assert(all.take(all.len() as int) =~= all);
        assert(names.take(0) =~= seq![]);
        assert(places(found@) =~= seq![]);
        assert(names.len() == n);
    }
    while k < n
        invariant
            k <= n <= scored@.len(),
            names.len() == n,
            all == reranker::result_views(scored@),
            names == result_names(hits::at_most(all, output_n as nat)),
            pieces::texts(labels@) == ls,
            places(found@) == picked(ls, names.take(k as int)),
        decreases n - k,
    {
        proof {
            assert(names.take(k + 1).drop_last() =~= names.take(k as int));
            assert(names.take(k + 1).last() == scored@[k as int].source@);
            assert(pieces::texts(labels@).len() == labels@.len());
        }
        let ghost before = places(found@);
        let name = scored[k].source.as_str();
        let at: usize = find_item(&labels, name, &found);
        if at < labels.len() && !name.is_empty() {
            found.push(at);
            assert(places(found@) =~= before.push(at as int));
        }
        k = k + 1;
    }
    assert(names.take(n as int) =~= names);
    assert(places(found@).len() == found@.len());
    if n > 0 && found.len() == 0 {
        return Reordered::AsIs;
    }
    proof {
        picked_items_are_distinct(ls, names);
        assert forall|i: int| 0 <= i < found@.len() implies #[trigger] found@[i] < items@.len() by {
            assert(places(found@)[i] == found@[i]);
        }
        assert forall|i: int, j: int| 0 <= i < j < found@.len() implies #[trigger] found@[i]
            != #[trigger] found@[j] by {
            assert(places(found@)[i] == found@[i]);
            assert(places(found@)[j] == found@[j]);
        }
    }
    let ghost given = items@;
    let r = take_items(items, &found);
    proof {
        json::lemma_trees(r@);
        let want = picked(ls, names).map_values(|i: int| json::trees(given)[i]);
        assert forall|i: int| 0 <= i < r@.len() implies json::trees(r@)[i] == want[i] by {
            assert(places(found@)[i] == found@[i]);
            assert(json::trees(r@)[i] == r@[i]@);
        }
        assert(json::trees(r@) =~= want);
    }
    Reordered::Items(r)
}

/// Pick the items of an answer in the order of their scores. An answer that is no list,
/// that has no symbols, or none of the scored ones, stays as it is.
pub fn apply_rerank_to_codegraph_json(
    answer: &str,
    scored: &Vec<RerankResult>,
    output_n: usize,
) -> (r: Reordered)
    ensures
        match json::listed(answer@) {
            None => r == Reordered::AsIs,
            Some(items) => is_reordered(
                r,
                items,
                reranker::result_views(scored@),
                output_n as nat,
            ),
        },
{
    match read_list(answer) {
        None => Reordered::AsIs,
        Some(items) => reorder_items(items, scored, output_n),
    }
}

/// Take items out of a list, by their places.
fn take_items(items: Vec<Json>, at: &Vec<usize>) -> (r: Vec<Json>)
    requires
        forall|i: int| 0 <= i < at@.len() ==> #[trigger] at@[i] < items@.len(),
        forall|i: int, j: int|
            0 <= i < j < at@.len() ==> #[trigger] at@[i] != #[trigger] at@[j],
    ensures
        r@.len() == at@.len(),
        forall|i: int| 0 <= i < r@.len() ==> #[trigger] r@[i] == items@[at@[i] as int],
{
    let ghost given = items@;
    let mut items = items;
    let mut r: Vec<Json> = Vec::new();
    let mut k: usize = 0;
    while k < at.len()
        invariant
            k <= at@.len(),
            items@.len() == given.len(),
            forall|i: int| 0 <= i < at@.len() ==> #[trigger] at@[i] < given.len(),
            forall|i: int, j: int|
                0 <= i < j < at@.len() ==> #[trigger] at@[i] != #[trigger] at@[j],
            forall|i: int|
                k <= i < at@.len() ==> items@[#[trigger] at@[i] as int] == given[at@[i] as int],
            r@.len() == k,
            forall|i: int| 0 <= i < k ==> #[trigger] r@[i] == given[at@[i] as int],
        decreases at.len() - k,
    {
        let mut item = Json::Null;
        items.set_and_swap(at[k], &mut item);
        r.push(item);
        k = k + 1;
    }
    r
}

/// The items that are picked are items, and none is picked twice.
pub proof fn picked_items_are_distinct(labels: Seq<Seq<char>>, names: Seq<Seq<char>>)
    ensures
        picked(labels, names).len() <= names.len(),
        forall|i: int|
            0 <= i < picked(labels, names).len() ==> 0 <= #[trigger] picked(labels, names)[i]
                < labels.len(),
        forall|i: int, j: int|
            0 <= i < j < picked(labels, names).len() ==> #[trigger] picked(labels, names)[i]
                != #[trigger] picked(labels, names)[j],
    decreases names.len(),
{
    if names.len() > 0 {
        let before = picked(labels, names.drop_last());
        picked_items_are_distinct(labels, names.drop_last());
        lemma_next_item(labels, names.last(), before, 0);
        let after = picked(labels, names);
        assert forall|i: int, j: int| 0 <= i < j < after.len() implies #[trigger] after[i]
            != #[trigger] after[j] by {
            if j == before.len() {
                assert(after[i] == before[i]);
            }
        }
    }
}

proof fn lemma_next_item(labels: Seq<Seq<char>>, name: Seq<char>, taken: Seq<int>, i: int)
    requires
        0 <= i <= labels.len(),
    ensures
        i <= next_item(labels, name, taken, i) <= labels.len(),
        next_item(labels, name, taken, i) < labels.len() ==> !taken.contains(
            next_item(labels, name, taken, i),
        ) && labels[next_item(labels, name, taken, i)] == name,
    decreases labels.len() - i,
{
    if i < labels.len() && !(labels[i] == name && !taken.contains(i)) {
        lemma_next_item(labels, name, taken, i + 1);
    }
}

/// The last item of a name.
pub open spec fn last_item(items: Seq<JsonView>, name: Seq<char>) -> Option<JsonView>
    decreases items.len(),
{
    if items.len() == 0 {
        None
    } else if symbols::label(symbols::node(items.last())) == name {
        Some(symbols::node(items.last()))
    } else {
        last_item(items.drop_last(), name)
    }
}

/// A scored symbol: as the answer has it, or by its name alone.
pub open spec fn scored_symbol(items: Seq<JsonView>, r: ResultView) -> Seq<char> {
    match last_item(items, r.candidate.source) {
        Some(n) => if r.candidate.source.len() > 0 {
            symbols::symbol_text(n, Some(r.score.short))
        } else {
            symbols::score_mark(Some(r.score.short)) + r.candidate.source
        },
        None => symbols::score_mark(Some(r.score.short)) + r.candidate.source,
    }
}

fn find_last<'a>(items: &'a Vec<Json>, name: &str) -> (r: Option<&'a Json>)
    ensures
        match r {
            Some(n) => last_item(json::trees(items@), name@) == Some(n@),
            None => last_item(json::trees(items@), name@) is None,
        },
{
    let ghost all = json::trees(items@);
    let mut i: usize = items.len();
    proof {
        json::lemma_trees(items@);
        assert(all.take(all.len() as int) =~= all);
    }
    while i > 0
        invariant
            i <= items@.len(),
            all == json::trees(items@),
            all.len() == items@.len(),
            forall|j: int| 0 <= j < items@.len() ==> all[j] == (#[trigger] items@[j])@,
            last_item(all, name@) == last_item(all.take(i as int), name@),
        decreases i,
    {
        proof {
            assert(all.take(i as int).drop_last() =~= all.take(i - 1));
            assert(all.take(i as int).last() == items@[i - 1]@);
        }
        i = i - 1;
        let n = node_of(&items[i]);
        if same_text(label_of(n).as_str(), name) {
            return Some(n);
        }
    }
    assert(all.take(0) =~= seq![]);
    None
}

/// What is shown of items in the order of their scores.
pub open spec fn reranked_text(
    query: Seq<char>,
    items: Seq<JsonView>,
    scored: Seq<ResultView>,
    output_n: nat,
) -> Seq<char> {
    let rs = hits::at_most(scored, output_n);
    if reranker::symbol_candidates(items).len() == 0 {
        symbols::items_text(items)
    } else if rs.len() == 0 {
        lance::no_results(query)
    } else {
        pieces::join(rs.map_values(|r: ResultView| scored_symbol(items, r)), "\n"@)
    }
}

/// Show items in the order of their scores.
pub fn fmt_reranked_items(
    query: &str,
    items: &Vec<Json>,
    scored: &Vec<RerankResult>,
    output_n: usize,
) -> (t: String)
    ensures
        t@ == reranked_text(
            query@,
            json::trees(items@),
            reranker::result_views(scored@),
            output_n as nat,
        ),
{
    let candidates = reranker::items_to_candidates(items);
    assert(reranker::candidate_views(candidates@).len() == candidates@.len());
    if candidates.len() == 0 {
        return fmt_items(items);
    }
    let n: usize = if output_n < scored.len() {
        output_n
    } else {
        scored.len()
    };
    let ghost all = reranker::result_views(scored@);
    let ghost rs = hits::at_most(all, output_n as nat);
    let ghost its = json::trees(items@);
    proof {
        assert(all.take(all.len() as int) =~= all);
        assert(rs =~= all.take(n as int));
    }
    if n == 0 {
        let mut t = "No results for '".to_owned();
        t.append(query);
        t.append("'.");
        return t;
    }
    let ghost want = rs.map_values(|r: ResultView| scored_symbol(its, r));
    let mut parts: Vec<String> = Vec::new();
    let mut i: usize = 0;
    assert(pieces::texts(parts@) =~= want.take(0));
    while i < n
        invariant
            i <= n <= scored@.len(),
            its == json::trees(items@),
            all == reranker::result_views(scored@),
            rs == all.take(n as int),
            want == rs.map_values(|r: ResultView| scored_symbol(its, r)),
            pieces::texts(parts@) == want.take(i as int),
        decreases n - i,
    {
        let r = &scored[i];
        let ghost before = pieces::texts(parts@);
        assert(rs[i as int] == r@);
        let found = if r.source.as_str().is_empty() {
            None
        } else {
            find_last(items, r.source.as_str())
        };
        match found {
            Some(node) => {
                parts.push(fmt_codegraph_hit(node, Some(r.score.short.as_str())));
            },
            None => {
                let mut t = mark_score(Some(r.score.short.as_str()));
                t.append(r.source.as_str());
                parts.push(t);
            },
        }
        proof {
            assert(parts@.last()@ == want[i as int]);
            assert(pieces::texts(parts@) =~= before.push(want[i as int]));
            assert(want.take(i + 1) =~= want.take(i as int).push(want[i as int]));
        }
        i = i + 1;
    }
    assert(want.take(n as int) =~= want);
    join_texts(&parts, "\n")
}

/// Show the symbols of an answer in the order of their scores.
pub fn apply_rerank_to_codegraph(
    query: &str,
    answer: &str,
    scored: &Vec<RerankResult>,
    output_n: usize,
) -> (t: String)
    ensures
        t@ == (match json::listed(answer@) {
            None => answer@,
            Some(items) => reranked_text(
                query@,
                items,
                reranker::result_views(scored@),
                output_n as nat,
            ),
        }),
{
    match read_list(answer) {
        None => answer.to_owned(),
        Some(items) => fmt_reranked_items(query, &items, scored, output_n),
    }
}

// ---------------------------------------------------------------------------
// Reading code
// ---------------------------------------------------------------------------

/// A symbol with its source, in Markdown.
pub open spec fn source_text(src: SymbolSource, at: Seq<char>) -> Seq<char> {
    let head = "**"@ + src.symbol@ + "** ("@ + src.kind@ + ") @ "@ + at;
    let signed = if src.signature@.len() > 0 {
        head + "\n"@ + src.signature@
    } else {
        head
    };
    signed + "\n\n```\n"@ + src.content@ + "\n```"@
}

fn show_source(src: &SymbolSource, at: &str) -> (r: String)
    ensures
        r@ == source_text(*src, at@),
{
    let mut r = "**".to_owned();
    r.append(src.symbol.as_str());
    r.append("** (");
    r.append(src.kind.as_str());
    r.append(") @ ");
    r.append(at);
    if !src.signature.as_str().is_empty() {
        r.append("\n");
        r.append(src.signature.as_str());
    }
    r.append("\n\n```\n");
    r.append(src.content.as_str());
    r.append("\n```");
    r
}

/// The place of a symbol, with its lines.
pub open spec fn source_lines(src: SymbolSource) -> Seq<char> {
    src.path@ + ":"@ + pieces::decimal(src.start_line as nat) + "-"@ + pieces::decimal(
        src.end_line as nat,
    )
}

fn show_source_lines(src: &SymbolSource) -> (r: String)
    ensures
        r@ == source_lines(*src),
{
    let mut r = src.path.clone();
    r.append(":");
    r.append(write_decimal(src.start_line as u64).as_str());
    r.append("-");
    r.append(write_decimal(src.end_line as u64).as_str());
    r
}

/// What is said of the symbol at a place.
pub fn read_code_report(found: &Option<SymbolSource>, package: &str, file: &str, line: u32) -> (r:
    String)
    ensures
        r@ == (match *found {
            Some(src) => source_text(src, source_lines(src)),
            None => "No symbol found covering "@ + file@ + ":"@ + pieces::decimal(line as nat)
                + " in the code index for '"@ + package@
                + "'. Verify the file path and line number from the codegraph results, or use read_symbol to look up by name."@,
        }),
{
    match found {
        Some(src) => show_source(src, show_source_lines(src).as_str()),
        None => {
            let mut r = "No symbol found covering ".to_owned();
            r.append(file);
            r.append(":");
            r.append(write_decimal(line as u64).as_str());
            r.append(" in the code index for '");
            r.append(package);
            r.append(
                "'. Verify the file path and line number from the codegraph results, or use read_symbol to look up by name.",
            );
            r
        },
    }
}

/// A symbol of several, as a row of a table.
pub open spec fn candidate_row(c: SymbolCandidate, at: nat) -> Seq<char> {
    "| "@ + pieces::decimal(at) + " | `"@ + (if c.qualified_name@.len() == 0 {
        c.name@
    } else {
        c.qualified_name@
    }) + "` | "@ + c.kind@ + " | "@ + c.path@ + " | "@ + pieces::decimal(c.start_line as nat)
        + "-"@ + pieces::decimal(c.end_line as nat) + " |\n"@
}

/// The symbols of a name, row by row.
pub open spec fn candidate_rows(cs: Seq<SymbolCandidate>) -> Seq<char>
    decreases cs.len(),
{
    if cs.len() == 0 {
        seq![]
    } else {
        candidate_rows(cs.drop_last()) + candidate_row(cs.last(), cs.len())
    }
}

fn show_candidate(c: &SymbolCandidate, at: u64) -> (r: String)
    ensures
        r@ == candidate_row(*c, at as nat),
{
    let mut r = "| ".to_owned();
    r.append(write_decimal(at).as_str());
    r.append(" | `");
    if c.qualified_name.as_str().is_empty() {
        r.append(c.name.as_str());
    } else {
        r.append(c.qualified_name.as_str());
    }
    r.append("` | ");
    r.append(c.kind.as_str());
    r.append(" | ");
    r.append(c.path.as_str());
    r.append(" | ");
    r.append(write_decimal(c.start_line as u64).as_str());
    r.append("-");
    r.append(write_decimal(c.end_line as u64).as_str());
    r.append(" |\n");
    r
}

/// What is said of the symbols of a name: nothing was found, the source of the one that
/// was found, or a table of several to choose from.
pub fn read_symbol_report(found: &SymbolLookup, package: &str, symbol: &str) -> (r: String)
    ensures
        r@ == (match *found {
            SymbolLookup::NotFound => "Symbol '"@ + symbol@
                + "' not found in the code index for '"@ + package@
                + "'. Try search_code to locate it first."@,
            SymbolLookup::Ambiguous(cs) => "**'"@ + symbol@ + "' is ambiguous** — "@
                + pieces::decimal(cs@.len())
                + " nodes share this name. Use `read_code` with a file path and line number to disambiguate.\n\n| # | Name | Kind | File | Lines |\n|---|------|------|------|-------|\n"@
                + candidate_rows(cs@),
            SymbolLookup::Unique(src) => source_text(
                src,
                if src.start_line > 0 {
                    source_lines(src)
                } else {
                    src.path@
                },
            ),
        }),
{
    match found {
        SymbolLookup::NotFound => {
            let mut r = "Symbol '".to_owned();
            r.append(symbol);
            r.append("' not found in the code index for '");
            r.append(package);
            r.append("'. Try search_code to locate it first.");
            r
        },
        SymbolLookup::Ambiguous(cs) => {
            let mut r = "**'".to_owned();
            r.append(symbol);
            r.append("' is ambiguous** — ");
            r.append(write_decimal(cs.len() as u64).as_str());
            r.append(
                " nodes share this name. Use `read_code` with a file path and line number to disambiguate.\n\n| # | Name | Kind | File | Lines |\n|---|------|------|------|-------|\n",
            );
            let ghost head = r@;
            let mut i: usize = 0;
            proof {
                assert(cs@.take(0) =~= seq![]);
                assert(head + candidate_rows(cs@.take(0)) =~= head);
            }
            while i < cs.len()
                invariant
                    i <= cs@.len(),
                    r@ == head + candidate_rows(cs@.take(i as int)),
                decreases cs.len() - i,
            {
                proof {
                    assert(cs@.take(i + 1).drop_last() =~= cs@.take(i as int));
                }
                let ghost before = r@;
                r.append(show_candidate(&cs[i], i as u64 + 1).as_str());
                proof {
                    assert(r@ =~= head + (candidate_rows(cs@.take(i as int)) + candidate_row(
                        cs@[i as int],
                        (i + 1) as nat,
                    )));
                }
                i = i + 1;
            }
            assert(cs@.take(cs@.len() as int) =~= cs@);
            r
        },
        SymbolLookup::Unique(src) => {
            if src.start_line > 0 {
                show_source(src, show_source_lines(src).as_str())
            } else {
                show_source(src, src.path.as_str())
            }
        },
    }
}

// ---------------------------------------------------------------------------
// What is known of a table
// ---------------------------------------------------------------------------

fn text_or(t: &Option<String>, other: &str) -> (r: String)
    ensures
        r@ == (match *t {
            Some(s) => s@,
            None => other@,
        }),
{
    match t {
        Some(s) => s.clone(),
        None => other.to_owned(),
    }
}

/// What is recorded of a package's documentation.
pub fn docs_metadata_report(meta: &Option<LanceMetadata>, package: &str) -> (r: String)
    ensures
        r@ == (match *meta {
            Some(m) => "**LanceDB metadata for '"@ + package@ + "'**\n- Table: "@ + (
            match m.table_name {
                Some(t) => t@,
                None => "docs"@,
            }) + "\n- Documents: "@ + pieces::decimal(
                (match m.document_count {
                    Some(n) => n,
                    None => 0,
                }) as nat,
            ) + "\n- Chunks: "@ + pieces::decimal(
                (match m.chunk_count {
                    Some(n) => n,
                    None => 0,
                }) as nat,
            ) + "\n- FTS enabled: "@ + (if m.fts_enabled == Some(true) {
                "true"@
            } else {
                "false"@
            }) + "\n- Indexed at: "@ + (match m.created_at {
                Some(t) => t@,
                None => "unknown"@,
            }),
            None => "No LanceDB metadata found for bundle '"@ + package@ + "'."@,
        }),
{
    match meta {
        Some(m) => {
            let mut r = "**LanceDB metadata for '".to_owned();
            r.append(package);
            r.append("'**\n- Table: ");
            r.append(text_or(&m.table_name, "docs").as_str());
            r.append("\n- Documents: ");
            let docs: u64 = match m.document_count {
                Some(n) => n,
                None => 0,
            };
            r.append(write_decimal(docs).as_str());
            r.append("\n- Chunks: ");
            let chunks: u64 = match m.chunk_count {
                Some(n) => n,
                None => 0,
            };
            r.append(write_decimal(chunks).as_str());
            r.append("\n- FTS enabled: ");
            match m.fts_enabled {
                Some(true) => {
                    r.append("true");
                },
                _ => {
                    r.append("false");
                },
            }
            r.append("\n- Indexed at: ");
            r.append(text_or(&m.created_at, "unknown").as_str());
            r
        },
        None => {
            let mut r = "No LanceDB metadata found for bundle '".to_owned();
            r.append(package);
            r.append("'.");
            r
        },
    }
}

// ---------------------------------------------------------------------------
// What reports come to
// ---------------------------------------------------------------------------

/// The terms of a query are found one by one: every word of three bytes or more, in small
/// letters.
pub proof fn terms_are_found_one_by_one(a: Seq<Seq<char>>, b: Seq<Seq<char>>, w: Seq<char>)
    ensures
        terms(a + b) == terms(a) + terms(b),
        pieces::byte_len(w) >= 3 ==> terms(seq![w]) == seq![text::lowercased(w)],
        pieces::byte_len(w) < 3 ==> terms(seq![w]).len() == 0,
    decreases b.len(),
{
    reveal_with_fuel(terms, 2);
    assert(seq![w].drop_last() =~= Seq::<Seq<char>>::empty());
    if pieces::byte_len(w) >= 3 {
        assert(terms(seq![w]) =~= seq![text::lowercased(w)]);
    }
    if b.len() == 0 {
        assert(a + b =~= a);
        assert(terms(a) + terms(b) =~= terms(a));
    } else {
        let t = b.drop_last();
        terms_are_found_one_by_one(a, t, w);
        assert((a + b).drop_last() =~= a + t);
        let x = text::lowercased(b.last());
        assert((terms(a) + terms(t)).push(x) =~= terms(a) + terms(t).push(x));
    }
}

/// The terms that a text has are counted one by one.
pub proof fn terms_are_counted_one_by_one(
    a: Seq<Seq<char>>,
    b: Seq<Seq<char>>,
    w: Seq<char>,
    hay: Seq<char>,
)
    ensures
        matched(a + b, hay) == matched(a, hay) + matched(b, hay),
        text::has_text(hay, w) ==> matched(seq![w], hay) == 1,
        !text::has_text(hay, w) ==> matched(seq![w], hay) == 0,
    decreases b.len(),
{
    reveal_with_fuel(matched, 2);
    assert(seq![w].drop_last() =~= Seq::<Seq<char>>::empty());
    if b.len() == 0 {
        assert(a + b =~= a);
    } else {
        terms_are_counted_one_by_one(a, b.drop_last(), w, hay);
        assert((a + b).drop_last() =~= a + b.drop_last());
    }
}

/// What is compared with a query is the whole name and the whole signature of a hit.
pub proof fn names_and_signatures_are_compared(h: HitView)
    ensures
        h.symbol matches Some(s) ==> text::starts_with(haystack(h), s),
        h.signature matches Some(s) ==> text::ends_with(haystack(h), s),
{
    let hay = haystack(h);
    match h.symbol {
        Some(s) => {
            assert(hay.subrange(0, s.len() as int) =~= s);
        },
        None => {},
    }
    match h.signature {
        Some(s) => {
            assert(hay.subrange(hay.len() - s.len(), hay.len() as int) =~= s);
        },
        None => {},
    }
}

/// The code of a hit is shown: its best window, unless the query hit the name, and the
/// snippet where there is no window.
pub proof fn code_is_shown(h: HitView, query: Seq<char>)
    ensures
        h.best_window matches Some(w) ==> !hits_name(query, h) ==> text::starts_with(
            code_block(h, query),
            "\n```\n"@ + w + "\n```"@,
        ),
        h.best_window is None && h.snippet.len() > 0 ==> code_block(h, query) == "\n```\n"@ + h.snippet
            + "\n```"@,
        h.best_window is Some && hits_name(query, h) ==> code_block(h, query).len() == 0,
        h.best_window is None && h.snippet.len() == 0 ==> code_block(h, query).len() == 0,
{
    match h.best_window {
        Some(w) => {
            let c = code_block(h, query);
            let shown = "\n```\n"@ + w + "\n```"@;
            if !hits_name(query, h) {
                assert(c.subrange(0, shown.len() as int) =~= shown);
            }
        },
        None => {},
    }
}

/// The lines that a window shows and those that are said to be left add up to the lines of
/// the symbol.
pub proof fn lines_left_out_are_counted(h: HitView, window: Seq<char>)
    ensures
        match more_lines(h, window) {
            Some(n) => {
                &&& 0 < h.start_line < h.end_line
                &&& pieces::lines(window).len() <= h.end_line - h.start_line + 1 ==> n
                    + pieces::lines(window).len() == h.end_line - h.start_line + 1
            },
            None => h.start_line == 0 || h.end_line <= h.start_line || (h.kwic_count <= 1
                && h.end_line - h.start_line + 1 <= pieces::lines(window).len() + 2),
        },
{
}

/// A hit is shown with its number in front and its code at the end.
pub proof fn hits_are_numbered(h: HitView, query: Seq<char>, n: nat, score: Option<Seq<char>>)
    ensures
        text::starts_with(section(h, query, n, score), "### "@ + pieces::decimal(n) + ". `"@),
        text::ends_with(section(h, query, n, score), code_block(h, query)),
{
    let s = section(h, query, n, score);
    let head = "### "@ + pieces::decimal(n) + ". `"@;
    let code = code_block(h, query);
    assert(s.subrange(0, head.len() as int) =~= head);
    assert(s.subrange(s.len() - code.len(), s.len() as int) =~= code);
}

/// Every hit that is left is shown, in its order, with its number and with its score as soon
/// as any hit has one above zero.
pub proof fn every_hit_left_is_shown(
    hs: Seq<HitView>,
    shown: Seq<search::Placed>,
    pool: Seq<int>,
    query: Seq<char>,
    i: int,
    j: int,
)
    requires
        0 <= i < shown.len(),
        0 <= j < shown.len(),
    ensures
        sections(hs, shown, pool, query).len() == shown.len(),
        shown[j].score.key > ZERO_KEY ==> sections(hs, shown, pool, query)[i] == section(
            hs[pool[shown[i].place]],
            query,
            (i + 1) as nat,
            Some(shown[i].score.long),
        ),
        (forall|k: int| 0 <= k < shown.len() ==> (#[trigger] shown[k]).score.key <= ZERO_KEY)
            ==> sections(hs, shown, pool, query)[i] == section(
            hs[pool[shown[i].place]],
            query,
            (i + 1) as nat,
            None,
        ),
{
}

/// The score of a place is the last one that was given to it.
pub proof fn the_last_score_counts(
    a: Seq<ResultView>,
    b: Seq<ResultView>,
    r: ResultView,
    source: Seq<char>,
)
    ensures
        score_at(b, source) is Some ==> score_at(a + b, source) == score_at(b, source),
        score_at(b, source) is None ==> score_at(a + b, source) == score_at(a, source),
        score_at(seq![r], source) == (if r.candidate.source == source {
            Some(r.score)
        } else {
            None
        }),
    decreases b.len(),
{
    reveal_with_fuel(score_at, 2);
    assert(seq![r].drop_last() =~= Seq::<ResultView>::empty());
    if b.len() == 0 {
        assert(a + b =~= a);
    } else {
        the_last_score_counts(a, b.drop_last(), r, source);
        assert((a + b).drop_last() =~= a + b.drop_last());
    }
}

/// Every row whose place was scored is kept, with its score, in its order.
pub proof fn scored_rows_are_kept(
    a: Seq<SearchResult>,
    b: Seq<SearchResult>,
    row: SearchResult,
    rs: Seq<ResultView>,
)
    ensures
        scored_rows(a + b, rs) == scored_rows(a, rs) + scored_rows(b, rs),
        match score_at(rs, lance::place_text(row)) {
            Some(s) => scored_rows(seq![row], rs) == seq![ScoredRow { row, score: s }],
            None => scored_rows(seq![row], rs).len() == 0,
        },
    decreases b.len(),
{
    reveal_with_fuel(scored_rows, 2);
    assert(seq![row].drop_last() =~= Seq::<SearchResult>::empty());
    match score_at(rs, lance::place_text(row)) {
        Some(s) => {
            assert(scored_rows(seq![row], rs) =~= seq![ScoredRow { row, score: s }]);
        },
        None => {},
    }
    if b.len() == 0 {
        assert(a + b =~= a);
        assert(scored_rows(a, rs) + scored_rows(b, rs) =~= scored_rows(a, rs));
    } else {
        let t = b.drop_last();
        scored_rows_are_kept(a, t, row, rs);
        assert((a + b).drop_last() =~= a + t);
        match score_at(rs, lance::place_text(b.last())) {
            Some(s) => {
                let x = ScoredRow { row: b.last(), score: s };
                assert((scored_rows(a, rs) + scored_rows(t, rs)).push(x) =~= scored_rows(a, rs)
                    + scored_rows(t, rs).push(x));
            },
            None => {},
        }
    }
}

/// Every scored row is shown once, with its score.
pub proof fn every_scored_row_is_shown(rows: Seq<SearchResult>, rs: Seq<ResultView>, k: int)
    requires
        0 <= k < scored_rows(rows, rs).len(),
    ensures
        ranked_rows(rows, rs).len() == scored_rows(rows, rs).len(),
        ranked_rows(rows, rs).contains(
            row_text(scored_rows(rows, rs)[k].row, Some(scored_rows(rows, rs)[k].score.short)),
        ),
{
    let sr = scored_rows(rows, rs);
    let keys = sr.map_values(|x: ScoredRow| x.score.key);
    rank::falling_is_in_order(keys);
    let order = rank::falling(keys);
    assert(order.contains(k));
    let i = choose|i: int| 0 <= i < order.len() && order[i] == k;
    assert(ranked_rows(rows, rs)[i] == row_text(sr[k].row, Some(sr[k].score.short)));
}

proof fn lemma_no_next_item(labels: Seq<Seq<char>>, name: Seq<char>, taken: Seq<int>, i: int, k: int)
    requires
        0 <= i <= k < labels.len(),
        labels[k] == name,
        next_item(labels, name, taken, i) >= labels.len(),
    ensures
        taken.contains(k),
    decreases k - i,
{
    if i < k {
        lemma_no_next_item(labels, name, taken, i + 1, k);
    }
}

/// Every name that an item has gives an item of that name, and the results come in the order
/// of the names: those of fewer names come first.
pub proof fn every_name_gives_an_item(labels: Seq<Seq<char>>, names: Seq<Seq<char>>, n: int, k: int)
    requires
        0 <= n < names.len(),
        names[n].len() > 0,
        0 <= k < labels.len(),
        labels[k] == names[n],
    ensures
        exists|p: int|
            0 <= p < picked(labels, names).len() && labels[#[trigger] picked(labels, names)[p]]
                == names[n],
        picked(labels, names.drop_last()).len() <= picked(labels, names).len(),
        picked(labels, names).take(picked(labels, names.drop_last()).len() as int) == picked(
            labels,
            names.drop_last(),
        ),
    decreases names.len(),
{
    let t = names.drop_last();
    let before = picked(labels, t);
    let after = picked(labels, names);
    lemma_next_item(labels, names.last(), before, 0);
    assert(after.take(before.len() as int) =~= before);
    if n < t.len() {
        assert(t[n] == names[n]);
        every_name_gives_an_item(labels, t, n, k);
        let p = choose|p: int| 0 <= p < before.len() && labels[#[trigger] before[p]] == t[n];
        assert(after[p] == before[p]);
    } else {
        let i = next_item(labels, names.last(), before, 0);
        if i < labels.len() {
            assert(after[before.len() as int] == i);
        } else {
            lemma_no_next_item(labels, names.last(), before, 0, k);
            let p = choose|p: int| 0 <= p < before.len() && before[p] == k;
            assert(after[p] == k);
        }
    }
}

/// Only items that a result names are picked.
pub proof fn only_named_items_are_picked(labels: Seq<Seq<char>>, names: Seq<Seq<char>>, p: int)
    requires
        0 <= p < picked(labels, names).len(),
    ensures
        names.contains(labels[picked(labels, names)[p]]),
        labels[picked(labels, names)[p]].len() > 0,
    decreases names.len(),
{
    let t = names.drop_last();
    let before = picked(labels, t);
    lemma_next_item(labels, names.last(), before, 0);
    if p < before.len() {
        only_named_items_are_picked(labels, t, p);
        let l = labels[before[p]];
        let n = choose|n: int| 0 <= n < t.len() && t[n] == l;
        assert(names[n] == l);
    } else {
        assert(names[names.len() - 1] == names.last());
    }
}

/// The symbols of a name are numbered from one, each on a row of its own, with the name that
/// is qualified where there is one, the kind, the file and the lines.
pub proof fn symbols_of_a_name_are_numbered(cs: Seq<SymbolCandidate>, c: SymbolCandidate)
    ensures
        candidate_rows(Seq::empty()).len() == 0,
        ({
            let name = if c.qualified_name@.len() > 0 {
                c.qualified_name@
            } else {
                c.name@
            };
            candidate_rows(cs.push(c)) == candidate_rows(cs) + ("| "@ + pieces::decimal(
                cs.len() + 1,
            ) + " | `"@ + name + "` | "@ + c.kind@ + " | "@ + c.path@ + " | "@ + pieces::decimal(
                c.start_line as nat,
            ) + "-"@ + pieces::decimal(c.end_line as nat) + " |\n"@)
        }),
{
    assert(cs.push(c).drop_last() =~= cs);
}

/// The source of a symbol is shown as it is.
pub proof fn sources_are_shown(src: SymbolSource, at: Seq<char>)
    ensures
        text::starts_with(source_text(src, at), "**"@ + src.symbol@ + "** ("@ + src.kind@ + ") @ "@ + at),
        text::ends_with(source_text(src, at), "\n\n```\n"@ + src.content@ + "\n```"@),
{
    let s = source_text(src, at);
    let head = "**"@ + src.symbol@ + "** ("@ + src.kind@ + ") @ "@ + at;
    let code = "\n\n```\n"@ + src.content@ + "\n```"@;
    assert(s.subrange(0, head.len() as int) =~= head);
    assert(s.subrange(s.len() - code.len(), s.len() as int) =~= code);
}

/// A symbol that was scored is shown as the last item of its name has it.
pub proof fn the_last_item_of_a_name_is_shown(
    a: Seq<JsonView>,
    b: Seq<JsonView>,
    v: JsonView,
    name: Seq<char>,
)
    ensures
        last_item(b, name) is Some ==> last_item(a + b, name) == last_item(b, name),
        last_item(b, name) is None ==> last_item(a + b, name) == last_item(a, name),
        symbols::label(symbols::node(v)) == name ==> last_item(seq![v], name) == Some(
            symbols::node(v),
        ),
        symbols::label(symbols::node(v)) != name ==> last_item(seq![v], name) is None,
    decreases b.len(),
{
    reveal_with_fuel(last_item, 2);
    assert(seq![v].drop_last() =~= Seq::<JsonView>::empty());
    if b.len() == 0 {
        assert(a + b =~= a);
    } else {
        the_last_item_of_a_name_is_shown(a, b.drop_last(), v, name);
        assert((a + b).drop_last() =~= a + b.drop_last());
    }
}

/// The answer to a query shows its hits wherever any are left.
pub proof fn answers_show_their_hits(
    hs: Seq<HitView>,
    pool: Seq<int>,
    shown: Seq<search::Placed>,
    query: Seq<char>,
    reranked: bool,
)
    requires
        shown.len() > 0,
    ensures
        answer_text(hs, pool, shown, query, reranked) == "## Query results for: `"@ + query
            + "`\n\n"@ + pieces::join(sections(hs, shown, pool, query), "\n\n---\n\n"@) + "\n"@,
{
}

/// Items are put in the order of their scores: with the names of the best results those items
/// come back that bear them, each once, and items that cannot be told apart by a name stay.
pub proof fn items_come_in_the_order_of_their_scores(
    r: Reordered,
    items: Seq<JsonView>,
    scored: Seq<ResultView>,
    output_n: nat,
    k: int,
    n: int,
)
    requires
        is_reordered(r, items, scored, output_n),
        0 <= k < items.len(),
        0 <= n < scored.len(),
        n < output_n,
        scored[n].candidate.source.len() > 0,
        symbols::label(symbols::node(items[k])) == scored[n].candidate.source,
        symbols::node(items[k]) is Object,
    ensures
        r is Items,
        json::trees(r->Items_0@).len() <= output_n,
        exists|p: int|
            0 <= p < json::trees(r->Items_0@).len() && symbols::label(
                symbols::node(#[trigger] json::trees(r->Items_0@)[p]),
            ) == scored[n].candidate.source,
{
    let rs = hits::at_most(scored, output_n);
    let names = result_names(rs);
    let labels = item_labels(items);
    assert(names[n] == scored[n].candidate.source);
    assert(labels[k] == names[n]);
    every_name_gives_an_item(labels, names, n, k);
    picked_items_are_distinct(labels, names);
    let found = picked(labels, names);
    let p = choose|p: int| 0 <= p < found.len() && labels[#[trigger] found[p]] == names[n];
    lemma_has_candidate(items, k);
    let out = json::trees(r->Items_0@);
    assert(out == found.map_values(|i: int| items[i]));
    assert(out[p] == items[found[p]]);
    assert(labels[found[p]] == symbols::label(symbols::node(items[found[p]])));
}

proof fn lemma_has_candidate(items: Seq<JsonView>, k: int)
    requires
        0 <= k < items.len(),
        symbols::node(items[k]) is Object,
    ensures
        reranker::symbol_candidates(items).len() > 0,
{
    let a = items.take(k);
    let b = items.skip(k + 1);
    let v = items[k];
    assert(items =~= a + (seq![v] + b));
    reranker::every_symbol_is_a_candidate(a, seq![v] + b, v);
    reranker::every_symbol_is_a_candidate(seq![v], b, v);
}

/// Scored symbols are shown line by line, as many as are asked for, in the order of their
/// scores.
pub proof fn scored_symbols_are_shown(
    query: Seq<char>,
    items: Seq<JsonView>,
    scored: Seq<ResultView>,
    output_n: nat,
    k: int,
)
    requires
        0 <= k < items.len(),
        symbols::node(items[k]) is Object,
        scored.len() > 0,
        output_n > 0,
    ensures
        reranked_text(query, items, scored, output_n) == pieces::join(
            scored.take(
                if output_n < scored.len() {
                    output_n as int
                } else {
                    scored.len() as int
                },
            ).map_values(|r: ResultView| scored_symbol(items, r)),
            "\n"@,
        ),
{
    lemma_has_candidate(items, k);
    assert(scored.take(scored.len() as int) =~= scored);
}

/// A query hits a name where half of its terms or more stand in it, and not where it has no
/// terms, where fewer do, or where there is no name.
pub proof fn half_of_the_terms_are_enough(query: Seq<char>, h: HitView)
    ensures
        ({
            let hay = text::lowercased(haystack(h));
            let ts = terms(pieces::split(query, CharClass::NotAlnum));
            &&& hits_name(query, h) ==> ts.len() > 0 && matched(ts, hay) * 2 >= ts.len()
                && text::trim(hay, CharClass::Space).len() > 0
            &&& ts.len() > 0 && matched(ts, hay) * 2 >= ts.len() && text::trim(
                hay,
                CharClass::Space,
            ).len() > 0 ==> hits_name(query, h)
        }),
{
}

/// Where no hit is left, the answer says so, and whether a model thought none relevant.
pub proof fn empty_answers_say_so(
    hs: Seq<HitView>,
    pool: Seq<int>,
    query: Seq<char>,
)
    ensures
        answer_text(hs, pool, Seq::empty(), query, false) == "No results for: `"@ + query + "`."@,
        text::starts_with(
            answer_text(hs, pool, Seq::empty(), query, true),
            "No relevant results for: `"@ + query + "`"@,
        ),
{
    let t = answer_text(hs, pool, Seq::empty(), query, true);
    let head = "No relevant results for: `"@ + query + "`"@;
    reveal_strlit(
        "`\n\nAll candidates scored below the relevance floor (0.10). Try rephrasing the query or use `search_code`, `search_docs`, or `search_symbols` to inspect a specific package directly.",
    );
    reveal_strlit("`");
    assert(t.subrange(0, head.len() as int) =~= head);
}

/// A symbol without a signature is shown without one, and one that no item bears is shown by
/// its name.
pub proof fn only_known_signatures_are_shown(
    src: SymbolSource,
    at: Seq<char>,
    items: Seq<JsonView>,
    r: ResultView,
)
    ensures
        src.signature@.len() == 0 ==> source_text(src, at) == "**"@ + src.symbol@ + "** ("@
            + src.kind@ + ") @ "@ + at + "\n\n```\n"@ + src.content@ + "\n```"@,
        src.signature@.len() > 0 ==> source_text(src, at) == "**"@ + src.symbol@ + "** ("@
            + src.kind@ + ") @ "@ + at + "\n"@ + src.signature@ + "\n\n```\n"@ + src.content@
            + "\n```"@,
        last_item(items, r.candidate.source) is None ==> scored_symbol(items, r)
            == symbols::score_mark(Some(r.score.short)) + r.candidate.source,
        last_item(items, r.candidate.source) matches Some(n) ==> (r.candidate.source.len() > 0
            ==> scored_symbol(items, r) == symbols::symbol_text(n, Some(r.score.short))),
        r.candidate.source.len() == 0 ==> scored_symbol(items, r) == symbols::score_mark(
            Some(r.score.short),
        ) + r.candidate.source,
{
}

/// The lines of a hit are shown as far as they are known.
pub proof fn lines_are_shown_as_far_as_known(start: u32, end: u32)
    ensures
        start > 0 && end > 0 ==> lines_text(start, end) == pieces::decimal(start as nat) + " – "@
            + pieces::decimal(end as nat),
        start > 0 && end == 0 ==> lines_text(start, end) == pieces::decimal(start as nat),
        start == 0 ==> lines_text(start, end) == "—"@,
{
}

} // verus!
