use sempkg::query_expansion::{
    lower_line, parse_variants, strip_think, variants_from, ExpansionKind, LoweredLine,
};

#[test]
fn strips_think_block() {
    let s = "<think>\n\n</think>\nlex: hello world";
    assert_eq!(strip_think(s), "lex: hello world");
}

#[test]
fn parses_typed_lines() {
    // Every variant shares a domain token with the original so the topical
    // guard keeps them; the test exercises lex/vec/hyde routing.
    let raw =
        "lex: tokio runtime\nvec: async executor internals\nhyde: Tokio is an async runtime\n";
    let v = parse_variants(raw, "tokio async runtime executor spawn", 10);
    assert_eq!(v.len(), 3);
    assert_eq!(v[0].kind, ExpansionKind::Lexical);
    assert_eq!(v[1].kind, ExpansionKind::Vector);
    assert_eq!(v[2].kind, ExpansionKind::Vector);
}

#[test]
fn dedups_and_caps() {
    let raw = "vec: alpha\nvec: alpha\nvec: beta\nvec: gamma";
    let v = parse_variants(raw, "alpha beta gamma delta", 2);
    assert_eq!(v.len(), 2);
    assert_eq!(v[0].text, "alpha");
    assert_eq!(v[1].text, "beta");
}

#[test]
fn skips_original_query_duplicate() {
    let raw = "lex: same query\nvec: different query";
    let v = parse_variants(raw, "same query", 10);
    assert_eq!(v.len(), 1);
    assert_eq!(v[0].text, "different query");
}

#[test]
fn rejects_generic_filler_with_no_overlap() {
    // The exact regression: the expander emits query-reformulation clichés
    // that share no content token with the original. All must be dropped.
    let raw =
        "lex: best practices for\nvec: recommended approaches\nhyde: common ways to use this";
    let v = parse_variants(raw, "abort communication with FS unit", 10);
    assert!(v.is_empty(), "generic filler must not survive: {v:?}");
}

#[test]
fn rejects_dangling_trailing_preposition() {
    // Shares a token ("communication") but ends in a dangling preposition.
    let raw = "lex: abort communication with";
    let v = parse_variants(raw, "abort communication with FS unit", 10);
    assert!(v.is_empty(), "dangling fragment must be dropped: {v:?}");
}

#[test]
fn rejects_too_short_variant() {
    let raw = "vec: io\nlex: a";
    let v = parse_variants(raw, "io completion port wait", 10);
    // "io" overlaps but is < MIN_VARIANT_CHARS; "a" is a stopword fragment.
    assert!(v.is_empty(), "too-short variants must be dropped: {v:?}");
}

#[test]
fn keeps_on_topic_domain_paraphrase() {
    // A genuine domain paraphrase that reuses a query term survives.
    let raw = "lex: wait_for_index completion\nvec: block until the index is ready\nhyde: the call waits for index ingestion to finish";
    let v = parse_variants(raw, "wait for index ready", 10);
    assert_eq!(v.len(), 3, "on-topic paraphrases must survive: {v:?}");
    assert_eq!(v[0].kind, ExpansionKind::Lexical);
}

#[test]
fn overlap_check_skipped_when_original_has_no_content_tokens() {
    // Original is all stopwords → nothing to anchor against, so the
    // overlap guard is bypassed (length / dangling guards still apply).
    let raw = "vec: tokio async runtime";
    let v = parse_variants(raw, "how to do this", 10);
    assert_eq!(v.len(), 1);
    assert_eq!(v[0].text, "tokio async runtime");
}

#[test]
fn lines_are_compared_in_lower_case() {
    let line = lower_line("- LEX: Tokio Runtime");
    assert_eq!(line.line, "- LEX: Tokio Runtime");
    assert_eq!(line.prefix, "lex");
    assert_eq!(line.whole, "lex: tokio runtime");
    assert_eq!(line.rest, "tokio runtime");
}

#[test]
fn variants_are_kept_by_their_lower_case_forms() {
    let lowered = |line: &str, prefix: &str, rest: &str| LoweredLine {
        line: line.to_string(),
        prefix: prefix.to_string(),
        whole: line.to_lowercase(),
        rest: rest.to_string(),
    };
    let lines = vec![
        lowered("lex: Tokio Runtime", "lex", "tokio runtime"),
        lowered("vec: TOKIO runtime", "vec", "tokio runtime"),
        lowered("vec: tokio spawn", "vec", "tokio spawn"),
        lowered("lex: tokio tasks", "lex", "tokio tasks"),
        lowered("lex: tokio async", "lex", "tokio async"),
    ];
    let tokens = vec!["tokio".to_string()];
    let kept = variants_from(&lines, "tokio spawn", &tokens, 2);
    let texts: Vec<&str> = kept.iter().map(|v| v.text.as_str()).collect();
    assert_eq!(texts, vec!["Tokio Runtime", "tokio tasks"]);
    assert_eq!(kept[0].kind, ExpansionKind::Lexical);
    let kept = variants_from(&lines, "tokio", &tokens, 9);
    assert_eq!(kept.len(), 4);
    assert_eq!(kept[1].kind, ExpansionKind::Vector);
}
