use sempkg::hits::{
    dedup_key, drop_introduced, is_own, is_surfaced, merge_hits, normalise_path, origin_priority,
    select_pool, HitOrigin, Share, UnifiedHit,
};
use sempkg::lance::SearchResult;
use sempkg::query_expansion::{ExpandedQuery, ExpansionKind, QueryExpansionConfig};
use sempkg::rank::{order_falling, order_rising, score_key, Score};
use sempkg::report::{format_unified_hit, query_matches_name_or_signature};
use sempkg::reranker::RerankerConfig;
use sempkg::search::{
    best_window, collect_query_hits, expand_hit, final_ranking, is_looked_up_by_name, plan_searches, promoted, relevant,
    retrieval_runs, unranked, SearchKind, SearchSource, SearchStep, StepReply, FLOOR_KEY,
};
use sempkg::session::{ExpansionPolicy, QuerySession};

fn score(s: f32) -> Score {
    Score {
        key: score_key(s.to_bits()),
        short: format!("{s:.2}"),
        long: format!("{s:.3}"),
    }
}

fn hit(package: &str, origin: HitOrigin, path: &str, line: u32, snippet: &str) -> UnifiedHit {
    UnifiedHit {
        package: package.to_string(),
        origin,
        path: path.to_string(),
        start_line: line,
        end_line: line,
        snippet: snippet.to_string(),
        symbol: None,
        kind: None,
        signature: None,
        shares: vec![Share { weight: 2, rank: 1 }],
        expanded_text: None,
        best_window: None,
        best_window_first: false,
        kwic_count: 0,
    }
}

fn row(path: &str, line: u32, snippet: &str) -> SearchResult {
    SearchResult {
        path: path.to_string(),
        snippet: snippet.to_string(),
        start_line: line,
        end_line: line + 2,
        start_byte: 0,
        end_byte: 0,
        symbol: Some("f".to_string()),
        kind: None,
        signature: None,
    }
}

#[test]
fn the_query_itself_weighs_double() {
    let variants = vec![
        ExpandedQuery { text: "kw".to_string(), kind: ExpansionKind::Lexical },
        ExpandedQuery { text: "sem".to_string(), kind: ExpansionKind::Vector },
    ];
    let runs = retrieval_runs("q", &variants);
    let shown: Vec<(&str, u32, bool, bool)> = runs
        .iter()
        .map(|r| (r.query.as_str(), r.weight, r.lexical, r.vector))
        .collect();
    assert_eq!(
        shown,
        vec![("q", 2, true, true), ("kw", 1, true, false), ("sem", 1, false, true)]
    );
}

#[test]
fn vectors_are_asked_only_of_the_same_model() {
    let source = SearchSource {
        package: "p@1".to_string(),
        code_dir: Some("/c".to_string()),
        docs_dir: Some("/d".to_string()),
        graph_dir: Some("/g".to_string()),
        code_model: Some(("m".to_string(), 3)),
        docs_model: Some(("other".to_string(), 3)),
    };
    let kinds = |lexical: bool, dim: Option<usize>| -> Vec<SearchKind> {
        plan_searches(&vec![source.clone()], lexical, dim, &Some("m".to_string()))
            .iter()
            .map(|s| s.kind)
            .collect()
    };
    assert!(kinds(true, None) == vec![SearchKind::Code, SearchKind::Docs, SearchKind::Graph]);
    assert!(
        kinds(true, Some(3))
            == vec![SearchKind::Code, SearchKind::CodeVector, SearchKind::Docs, SearchKind::Graph]
    );
    assert!(kinds(false, Some(3)) == vec![SearchKind::CodeVector]);
    assert!(kinds(false, Some(4)).is_empty());
}

#[test]
fn replies_become_hits() {
    let steps = vec![
        SearchStep { package: "p".to_string(), kind: SearchKind::Code, dir: "/c".to_string() },
        SearchStep { package: "p".to_string(), kind: SearchKind::Graph, dir: "/g".to_string() },
        SearchStep { package: "p".to_string(), kind: SearchKind::Docs, dir: "/d".to_string() },
    ];
    let answer = r#"[{"node":{"name":"f","kind":"function","filePath":"a.rs","startLine":4,"endLine":9}}]"#;
    let replies = vec![
        StepReply::Rows(vec![row("a.rs", 4, "x"), row("b.rs", 1, "y")]),
        StepReply::Answer(answer.to_string()),
        StepReply::Failed,
    ];
    let mut hits = Vec::new();
    collect_query_hits(&steps, &replies, 2, &mut hits);
    assert_eq!(hits.len(), 3);
    assert_eq!(hits[1].shares[0].rank, 2);
    assert_eq!(hits[1].shares[0].weight, 2);
    assert!(hits[2].origin == HitOrigin::Codegraph);
    assert_eq!(hits[2].snippet, "function f");
    assert_eq!((hits[2].start_line, hits[2].end_line), (4, 9));
}

#[test]
fn hits_of_one_place_are_merged() {
    let mut graph = hit("p", HitOrigin::Codegraph, "src\\A.rs", 4, "sig");
    graph.symbol = Some("m.f".to_string());
    let mut code = hit("p", HitOrigin::Code, "src/a.rs", 4, "fn f() {}");
    code.symbol = Some("f".to_string());
    let merged = merge_hits(&vec![graph, code, hit("p", HitOrigin::Docs, "src/a.rs", 4, "doc")]);
    assert_eq!(merged.len(), 2);
    assert!(merged[0].origin == HitOrigin::Code);
    assert_eq!(merged[0].symbol.as_deref(), Some("m.f"));
    assert_eq!(merged[0].shares.len(), 2);
    assert_eq!(normalise_path("Src\\A"), "src/a");
    assert_eq!(origin_priority(HitOrigin::Code), 2);
    assert!(dedup_key(&merged[1]).passage);
}

#[test]
fn no_source_fills_the_pool() {
    let mut hits: Vec<UnifiedHit> = (0..6)
        .map(|i| hit("p", HitOrigin::Code, "a.rs", i + 1, "x"))
        .collect();
    hits.push(hit("q", HitOrigin::Code, "b.rs", 1, "x"));
    let keys = vec![9, 8, 7, 6, 5, 4, 1];
    assert_eq!(select_pool(&hits, &keys, 9, 0), vec![0, 1, 2, 6]);
    assert_eq!(select_pool(&hits, &keys, 2, 0), vec![0, 1]);
}

#[test]
fn orders_keep_equal_keys_in_place() {
    assert_eq!(order_rising(&vec![3, 1, 3, 2]), vec![1, 3, 0, 2]);
    assert_eq!(order_falling(&vec![3, 1, 3, 2]), vec![0, 2, 3, 1]);
}

#[test]
fn the_second_pass_decides() {
    let first: Vec<Score> = [0.1, 0.9, 0.5].iter().map(|s| score(*s)).collect();
    assert_eq!(promoted(&first, 1), vec![1, 2, 0]);
    assert_eq!(best_window(&vec![score(0.2), score(0.7), score(0.7)]), 1);
    let best = vec![score(0.3), score(0.8), score(0.05)];
    let ranked = final_ranking(&first, &best, 2);
    let places: Vec<usize> = ranked.iter().map(|r| r.place).collect();
    assert_eq!(places, vec![2, 1]);
    let shown = relevant(&final_ranking(&first, &best, 3), 3);
    assert_eq!(shown.len(), 2);
    assert_eq!(FLOOR_KEY, score_key(0.1_f32.to_bits()));
    assert_eq!(unranked(&first, 2).len(), 2);
}

#[test]
fn names_are_recognised_in_queries() {
    let mut h = hit("p", HitOrigin::Code, "a.rs", 4, "x");
    h.symbol = Some("parse_header".to_string());
    assert!(query_matches_name_or_signature("parse the header", &h));
    assert!(!query_matches_name_or_signature("render table rows", &h));
    assert!(!query_matches_name_or_signature("a b", &h));
    let text = format_unified_hit(&h, "parse header", 1, Some("0.900"));
    assert!(text.starts_with("### 1. `parse_header` \u{b7} score 0.900"), "{text}");
    assert!(text.contains("| **Lines** | 4 \u{2013} 4 |"), "{text}");
}

fn policy() -> ExpansionPolicy {
    ExpansionPolicy::of(&QueryExpansionConfig::default(), 5)
}

/// A hit that only a variant of the query found.
fn introduced(package: &str, path: &str) -> UnifiedHit {
    let mut h = hit(package, HitOrigin::Code, path, 1, "x");
    h.shares = vec![Share { weight: 1, rank: 1 }];
    h
}

#[test]
fn variants_reinforce_what_the_query_found() {
    let mut both = introduced("p", "a.rs");
    both.shares.push(Share { weight: 2, rank: 3 });
    let hits = vec![introduced("q", "b.rs"), both];
    assert!(!is_own(&hits[0]));
    assert!(is_own(&hits[1]));
    let left = drop_introduced(&hits);
    assert_eq!(left.len(), 1);
    assert_eq!(left[0].path, "a.rs");
    assert!(is_surfaced(&hits, "p"));
    assert!(!is_surfaced(&hits, "q"));
}

#[test]
fn variants_fill_only_their_share_of_the_pool() {
    let hits = vec![
        introduced("p", "a.rs"),
        introduced("q", "b.rs"),
        hit("r", HitOrigin::Code, "c.rs", 1, "x"),
    ];
    let keys = vec![9, 8, 7];
    assert_eq!(select_pool(&hits, &keys, 9, 1), vec![0, 2]);
    assert_eq!(select_pool(&hits, &keys, 9, 2), vec![0, 1, 2]);
    assert_eq!(select_pool(&hits, &keys, 9, 0), vec![2]);
}

#[test]
fn a_session_leaves_out_what_only_variants_found() {
    let found = vec![StepReply::Rows(vec![row("a.rs", 4, "one")])];
    let more = vec![StepReply::Rows(vec![row("a.rs", 4, "one"), row("b.rs", 8, "two")])];

    let mut s = QuerySession::new("widget", 5, &None, false, policy());
    s.collect(&steps(), &found, 2);
    s.collect(&steps(), &more, 1);
    assert!(s.fuse().is_none());
    assert_eq!(s.hits.len(), 1);
    assert_eq!(s.hits[0].shares.len(), 2);
    assert!(!s.is_off_topic(0));

    let mut s = QuerySession::new("widget", 5, &None, false, policy());
    s.collect(&steps(), &more, 1);
    assert!(s.fuse().unwrap().starts_with("No results found for: `widget`"));

    let open = QueryExpansionConfig { additive_only: false, ..Default::default() };
    let mut s = QuerySession::new("widget", 5, &None, false, ExpansionPolicy::of(&open, 5));
    s.collect(&steps(), &more, 1);
    assert!(s.fuse().is_none());
    assert_eq!(s.hits.len(), 2);
    assert!(s.is_off_topic(0));
    s.collect(&steps(), &found, 2);
    assert!(s.fuse().is_none());
    assert!(!s.is_off_topic(1));
}

fn steps() -> Vec<SearchStep> {
    vec![SearchStep { package: "p".to_string(), kind: SearchKind::Code, dir: "/c".to_string() }]
}

#[test]
fn a_session_without_a_reranker() {
    let mut s = QuerySession::new("widget", 1, &None, false, policy());
    assert_eq!(s.fetch, 20);
    let replies = vec![StepReply::Rows(vec![row("a.rs", 4, "one"), row("b.rs", 8, "two")])];
    s.collect(&steps(), &replies, 2);
    assert!(s.fuse().is_none());
    s.choose_pool(&vec![5, 4]);
    let fused = vec![score(0.03), score(0.02)];
    let text = s.answer(&fused);
    assert!(text.starts_with("## Query results for: `widget`\n\n### 1. `f`"), "{text}");
    assert!(!text.contains("### 2."), "{text}");
}

#[test]
fn a_session_with_a_reranker() {
    let cfg = Some(RerankerConfig { enabled: true, top_k: 20, ..Default::default() });
    let mut s = QuerySession::new("widget", 5, &cfg, true, policy());
    let replies = vec![StepReply::Rows(vec![row("a.rs", 4, "one"), row("b.rs", 8, "two")])];
    s.collect(&steps(), &replies, 2);
    assert!(s.fuse().is_none());
    s.choose_pool(&vec![5, 4]);
    s.expand(0, &Some("the whole body of one".to_string()), &None);
    assert_eq!(s.first_texts(), vec!["f: one", "f: two"]);
    s.score_first(vec![score(0.2), score(0.6)]);
    let mut asked = Vec::new();
    while let Some(texts) = s.next_texts() {
        asked.push(texts.clone());
        let scores = texts.iter().map(|t| score(if t.contains("whole") { 0.9 } else { 0.01 })).collect();
        s.score_next(&scores);
    }
    assert_eq!(asked, vec![vec!["f: two"], vec!["f: the whole body of one"]]);
    let text = s.answer(&vec![score(0.03), score(0.02)]);
    assert!(text.contains("`a.rs`"), "{text}");
    assert!(!text.contains("`b.rs`"), "below the floor: {text}");
}

#[test]
fn nothing_found_is_told() {
    let mut s = QuerySession::new("widget", 5, &None, false, policy());
    s.collect(&steps(), &vec![StepReply::Failed], 2);
    let text = s.fuse().unwrap();
    assert!(text.starts_with("No results found for: `widget`"), "{text}");
}

#[test]
fn only_unplaced_graph_hits_are_looked_up_by_name() {
    let body = |text: &str| Some(text.to_string());
    let named = |origin: HitOrigin, line: u32| {
        let mut h = hit("p", origin, "a.rs", line, "fn f");
        h.symbol = Some("f".to_string());
        h
    };
    let expand = |mut h: UnifiedHit| {
        expand_hit(&mut h, &body("at its place"), &body("by its name"));
        h.expanded_text
    };
    assert_eq!(expand(named(HitOrigin::Codegraph, 0)), body("by its name"));
    assert_eq!(expand(named(HitOrigin::Codegraph, 4)), body("at its place"));
    assert_eq!(expand(named(HitOrigin::Code, 4)), body("at its place"));
    assert_eq!(expand(named(HitOrigin::Code, 0)), None);
    assert_eq!(expand(named(HitOrigin::Docs, 4)), None);
    assert!(is_looked_up_by_name(&named(HitOrigin::Codegraph, 0)));
    assert!(!is_looked_up_by_name(&hit("p", HitOrigin::Codegraph, "a.rs", 0, "fn f")));

    let mut h = named(HitOrigin::Codegraph, 4);
    expand_hit(&mut h, &None, &body("by its name"));
    assert_eq!(h.expanded_text, None);
    expand_hit(&mut h, &body("fn f"), &None);
    assert_eq!(h.expanded_text, None, "no longer than the snippet");
}
