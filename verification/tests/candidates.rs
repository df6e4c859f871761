use sempkg::candidates::{diversify_query_results, merge_query_candidates};
use sempkg::rank::Score;
use sempkg::reranker::{format_reranked_docs, RerankCandidate, RerankOrigin, RerankResult};

fn candidate(source: &str, origin: RerankOrigin) -> RerankCandidate {
    RerankCandidate { source: source.to_string(), text: source.to_string(), origin }
}

fn result(source: &str, origin: RerankOrigin, key: u64) -> RerankResult {
    RerankResult {
        source: source.to_string(),
        text: source.to_string(),
        origin,
        score: Score { key, short: "0.50".to_string(), long: "0.500".to_string() },
    }
}

fn code(n: &[&str]) -> Vec<RerankCandidate> {
    n.iter().map(|s| candidate(s, RerankOrigin::Codegraph)).collect()
}

fn docs(n: &[&str]) -> Vec<RerankCandidate> {
    n.iter().map(|s| candidate(s, RerankOrigin::Docs)).collect()
}

fn names(v: &[RerankCandidate]) -> Vec<&str> {
    v.iter().map(|c| c.source.as_str()).collect()
}

#[test]
fn both_kinds_alternate() {
    let merged = merge_query_candidates(&code(&["c1", "c2", "c3"]), &docs(&["d1"]), 10);
    assert_eq!(names(&merged), vec!["c1", "d1", "c2", "c3"]);
    let merged = merge_query_candidates(&code(&["c1", "c2"]), &docs(&["d1", "d2"]), 3);
    assert_eq!(names(&merged), vec!["c1", "d1", "c2"]);
    assert_eq!(names(&merge_query_candidates(&code(&[]), &docs(&["d1", "d2"]), 1)), vec!["d1"]);
    assert!(merge_query_candidates(&code(&["c"]), &docs(&["d"]), 0).is_empty());
}

#[test]
fn both_kinds_are_shown() {
    let scored = vec![
        result("c1", RerankOrigin::Codegraph, 9),
        result("c2", RerankOrigin::Codegraph, 8),
        result("d1", RerankOrigin::Docs, 1),
    ];
    let shown = diversify_query_results(&scored, 2, true, true);
    let sources: Vec<&str> = shown.iter().map(|r| r.source.as_str()).collect();
    assert_eq!(sources, vec!["c1", "d1"]);
    let shown = diversify_query_results(&scored, 2, true, false);
    let sources: Vec<&str> = shown.iter().map(|r| r.source.as_str()).collect();
    assert_eq!(sources, vec!["c1", "c2"]);
}

#[test]
fn nothing_is_shown_for_nothing() {
    assert_eq!(format_reranked_docs(&vec![], "q"), "No results for 'q'.");
}
