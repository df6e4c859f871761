use sempkg::accel::gpu_warning;
use sempkg::embedding::EmbeddingModel;
use sempkg::inference::{
    check_model, dimension_warning, embedded_tokens, scored_tokens, Generation, Sampled, Task,
};
use sempkg::query_expansion::build_prompt;
use sempkg::reranker::build_rerank_prompt;

fn piece(t: &str) -> Sampled {
    Sampled::Piece(t.to_string())
}

#[test]
fn a_missing_model_is_told() {
    assert!(check_model(Task::Reranking, "/m", true).is_ok());
    assert_eq!(
        check_model(Task::Reranking, "/m", false).unwrap_err(),
        "Reranker model not found at /m. Run `sempkg reranker pull` to download it."
    );
    assert_eq!(
        check_model(Task::Embedding, "/m", false).unwrap_err(),
        "Embedding model not found at /m. Run `sempkg embedding pull` to download it."
    );
    assert_eq!(
        check_model(Task::Expansion, "/m", false).unwrap_err(),
        "Query-expansion model not found at /m. Run `sempkg query-expansion pull`."
    );
}

#[test]
fn another_dimension_is_told() {
    assert_eq!(dimension_warning(EmbeddingModel::Gemma300M, 768), None);
    let w = dimension_warning(EmbeddingModel::Gemma300M, 3).unwrap();
    assert!(w.contains("embeddinggemma-300m reports dim 3 but"), "{w}");
    assert!(w.contains("expects 768; using 3."), "{w}");
    assert!(gpu_warning("reranker").starts_with("sempkg: warning \u{2014} [reranker] gpu = \"on\""));
}

#[test]
fn texts_are_cut_to_the_context() {
    assert_eq!(embedded_tokens(5, 3), 3);
    assert_eq!(embedded_tokens(2, 3), 2);
    assert_eq!(embedded_tokens(2, 0), 1);
    assert_eq!(embedded_tokens(0, 0), 0);
    assert_eq!(scored_tokens(5, 3), 3);
    assert_eq!(scored_tokens(5, 0), 0);
}

#[test]
fn writing_stops_at_the_end() {
    let mut g = Generation::start(10, 100, 50, 4).unwrap();
    assert_eq!(g.take(&piece("lex: a\n")), Some(10));
    assert_eq!(g.take(&Sampled::Unreadable), Some(11));
    assert_eq!(g.take(&Sampled::End), None);
    assert_eq!(g.text, "lex: a\n");
}

#[test]
fn writing_stops_when_there_are_lines_enough() {
    let mut g = Generation::start(10, 100, 50, 1).unwrap();
    assert_eq!(g.take(&piece("a\nb\nc\n")), Some(10));
    assert_eq!(g.take(&piece("d\n")), None);
    assert_eq!(g.text, "a\nb\nc\nd\n");
}

#[test]
fn writing_stops_when_its_tokens_are_used_up() {
    let mut g = Generation::start(10, 100, 2, 4).unwrap();
    while g.wants_more() {
        assert!(g.take(&piece("x")).is_some());
    }
    assert_eq!(g.text, "xx");
    assert!(!Generation::start(10, 100, -1, 4).unwrap().wants_more());
    assert_eq!(
        Generation::start(100, 100, 2, 4).err(),
        Some("prompt exceeds context window".to_string())
    );
}

#[test]
fn prompts_hold_what_is_asked() {
    let p = build_rerank_prompt("my query", "my document");
    assert!(p.contains("my query") && p.contains("my document"), "{p}");
    assert!(build_prompt("my query").contains("my query"));
}
