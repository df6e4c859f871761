use sempkg::codegraph::{
    db_path, db_query_at_location, db_query_symbol, db_query_symbol_all, init_and_index,
    row_to_node, suffix_patterns, sync, tool_output, version, NodeRecord, NodeRow,
};
use sempkg::error::SempkgError;
use sempkg::json::{read_json, Json};
use sempkg::lance::{
    ambiguous_symbol, batch_ranges, check_embedding, check_table, fetch_from_code_table,
    fetch_symbol_at_location, fetch_symbol_source, format_results, is_range_sound, keep_kind,
    location_filter,
    new_metadata, node_filter, read_embedding_info, search, search_code, show_place,
    slice_content_to_range, stamp_embedding_metadata, take_chars, LanceMetadata, SymbolLookup,
    TableRow,
};
use sempkg::messages::{check_remove_options, docs_meta};
use sempkg::rank::{score_key, Score};
use sempkg::report::{
    apply_rerank_to_codegraph, apply_rerank_to_codegraph_json, docs_metadata_report,
    fmt_lance_results, fmt_reranked_items, read_symbol_report, reorder_items, Reordered,
};
use sempkg::reranker::{items_to_candidates, RerankOrigin, RerankResult};
use sempkg::symbols::{
    fmt_codegraph_with_source, fmt_items, fmt_items_with_source, item_names, symbols_to_fetch,
};

fn row(path: &str, content: &str, lines: (u32, u32), symbol: Option<&str>) -> TableRow {
    TableRow {
        path: path.to_string(),
        content: content.to_string(),
        start_line: lines.0,
        end_line: lines.1,
        start_byte: 0,
        end_byte: 0,
        symbol: symbol.map(str::to_string),
        kind: Some("function".to_string()),
        signature: Some("()".to_string()),
    }
}

fn node(name: &str, lines: (u32, u32)) -> NodeRecord {
    NodeRecord {
        name: name.to_string(),
        qualified_name: format!("m.{name}"),
        file_path: "src/m.rs".to_string(),
        start_line: lines.0,
        end_line: lines.1,
        kind: "function".to_string(),
        signature: None,
        docstring: None,
    }
}

#[test]
fn symbols_are_cut_out_of_their_chunks() {
    assert_eq!(slice_content_to_range("a\nb\nc\nd", 10, 11, 12), "b\nc");
    assert_eq!(slice_content_to_range("a\nb", 0, 1, 1), "a\nb");
    assert_eq!(take_chars("\u{e4}\u{f6}\u{fc}", 2), "\u{e4}\u{f6}");
    let rows = vec![row("src/m.rs", "a\nb\nc\nd", (10, 13), Some("f"))];
    let found = fetch_from_code_table(&rows, Some(&node("f", (11, 12))), "f").unwrap();
    assert_eq!(found.content, "b\nc");
    assert_eq!((found.start_line, found.end_line), (11, 12));
    assert_eq!(found.symbol, "f");
    assert!(fetch_from_code_table(&vec![], None, "f").is_none());
}

#[test]
fn a_name_that_many_have_is_ambiguous() {
    let nodes = vec![node("f", (1, 2)), node("f", (5, 6))];
    assert_eq!(ambiguous_symbol(&nodes).unwrap().len(), 2);
    match fetch_symbol_source(true, &nodes, &vec![], "f") {
        SymbolLookup::Ambiguous(c) => assert_eq!(c[1].start_line, 5),
        _ => panic!("two symbols have the name"),
    }
    let found = fetch_symbol_source(true, &nodes, &vec![], "f");
    let text = read_symbol_report(&found, "p", "f");
    assert!(text.contains("| 2 | `m.f` | function | src/m.rs | 5-6 |"), "{text}");
    assert!(matches!(
        fetch_symbol_source(true, &vec![], &vec![], "f"),
        SymbolLookup::NotFound
    ));
    assert!(matches!(
        fetch_symbol_source(false, &nodes, &vec![], "f"),
        SymbolLookup::NotFound
    ));
}

fn node_row(name: &str, qualified: Option<&str>, lines: (Option<i64>, Option<i64>)) -> NodeRow {
    NodeRow {
        name: name.to_string(),
        qualified_name: qualified.map(str::to_string),
        file_path: None,
        start_line: lines.0,
        end_line: lines.1,
        kind: None,
        signature: None,
        docstring: None,
    }
}

#[test]
fn nodes_of_a_name_come_by_preference() {
    let rows = vec![
        node_row("f", Some("m.f"), (Some(1), Some(30))),
        node_row("g", Some("m.g"), (Some(1), Some(2))),
        node_row("f", Some("n.f"), (Some(40), Some(41))),
        node_row("x", Some("f"), (Some(50), Some(90))),
        node_row("f", None, (Some(7), None)),
        node_row("f", Some("o.f"), (Some(60), Some(61))),
    ];
    let found: Vec<u32> = db_query_symbol_all(&rows, "f").iter().map(|n| n.start_line).collect();
    assert_eq!(found, vec![50, 7, 40, 60, 1]);
    assert_eq!(db_query_symbol(&rows, "f").unwrap().name, "x");
    assert_eq!(db_query_symbol(&rows, "m.g").unwrap().name, "g");
    assert!(db_query_symbol(&rows, "h").is_none());
    assert!(db_query_symbol_all(&rows, "h").is_empty());
}

#[test]
fn stored_ranges_decide_between_nodes() {
    let of = |a: (i64, i64), b: (i64, i64)| {
        let rows = vec![
            node_row("f", Some("a"), (Some(a.0), Some(a.1))),
            node_row("f", Some("b"), (Some(b.0), Some(b.1))),
        ];
        db_query_symbol(&rows, "f").unwrap().qualified_name
    };
    assert_eq!(of((0, 4_294_967_301), (0, 10)), "b");
    assert_eq!(of((5, -1), (1, 3)), "a");
    assert_eq!(of((i64::MIN, i64::MAX), (0, 1)), "b");
    assert_eq!(of((i64::MAX, i64::MIN), (0, 0)), "a");
    let rows = vec![
        node_row("f", Some("a"), (Some(i64::MAX), Some(i64::MIN))),
        node_row("f", Some("b"), (None, Some(7))),
        node_row("x", Some("f"), (Some(i64::MIN), Some(i64::MAX))),
    ];
    let order: Vec<String> =
        db_query_symbol_all(&rows, "f").into_iter().map(|n| n.qualified_name).collect();
    assert_eq!(order, vec!["f", "b", "a"]);
}

#[test]
fn the_tightest_node_around_a_line_is_found() {
    let rows = vec![
        node_row("outer", None, (Some(1), Some(90))),
        node_row("inner", None, (Some(10), Some(12))),
        node_row("other", None, (Some(20), Some(21))),
        node_row("open", None, (Some(10), None)),
        node_row("twin", None, (Some(9), Some(11))),
    ];
    assert_eq!(db_query_at_location(&rows, 11).unwrap().name, "inner");
    assert_eq!(db_query_at_location(&rows, 13).unwrap().name, "outer");
    assert!(db_query_at_location(&rows, 91).is_none());
}

#[test]
fn only_the_chosen_row_has_to_have_a_range() {
    let backwards = row("a.rs", "x", (9, 3), Some("f"));
    let unplaced = row("a.rs", "x", (0, 3), Some("f"));
    assert!(is_range_sound(&vec![], None, "f"));
    assert!(is_range_sound(&vec![unplaced], None, "f"));
    assert!(!is_range_sound(&vec![backwards.clone()], None, "f"));
    assert!(is_range_sound(&vec![backwards.clone()], Some(&node("f", (1, 2))), "f"));
    assert!(!is_range_sound(&vec![backwards], Some(&node("f", (2, 1))), "f"));
}

#[test]
fn the_tightest_symbol_around_a_line_is_found() {
    let rows = vec![
        row("m.rs", "outer", (1, 90), Some("outer")),
        row("m.rs", "inner", (10, 12), Some("inner")),
    ];
    let found = fetch_symbol_at_location(true, false, None, &rows, "m.rs").unwrap();
    assert_eq!(found.symbol, "inner");
    assert!(fetch_symbol_at_location(false, false, None, &rows, "m.rs").is_none());
}

#[test]
fn filters_quote_what_they_look_for() {
    assert!(location_filter("it's.rs", 7).ends_with(" AND start_line <= 7 AND end_line >= 7"));
    assert!(location_filter("it's.rs", 7).contains("it''s.rs"));
    assert!(node_filter(&node("f", (1, 2))).contains("m.rs"));
    assert_eq!(
        suffix_patterns("a/b.rs"),
        ("%/a/b.rs".to_string(), "%\\a/b.rs".to_string())
    );
}

#[test]
fn results_are_shown() {
    let rows = vec![row("a.md", "alpha", (3, 4), None)];
    let found = search("d", true, &rows).unwrap();
    assert_eq!(show_place(&found[0]), "a.md:3-4");
    assert_eq!(format_results(&vec![], "q"), "No results for 'q'.");
    assert!(format_results(&found, "q").contains("alpha"));
    assert_eq!(fmt_lance_results(&vec![]), "No results.");
    let code = search_code("d", true, &vec![row("a.rs", "fn f() {}", (1, 1), Some("f"))]).unwrap();
    assert_eq!(code[0].symbol.as_deref(), Some("f"));
    assert_eq!(keep_kind(code.clone(), Some("struct")).len(), 0);
    assert_eq!(keep_kind(code.clone(), Some("function")).len(), 1);
    assert_eq!(keep_kind(code, None).len(), 1);
}

#[test]
fn a_missing_index_is_told() {
    let rows = vec![row("a.md", "alpha", (3, 4), None)];
    let missing = |e: SempkgError| matches!(e, SempkgError::NoLanceIndex(p) if p == "/b/lance");
    assert!(missing(search("/b/lance", false, &rows).unwrap_err()));
    assert!(missing(search_code("/b/lance", false, &rows).unwrap_err()));
    assert!(missing(check_table("/b/lance", false).unwrap_err()));
    assert!(check_table("/b/lance", true).is_ok());
}

#[test]
fn vectors_are_put_where_they_belong() {
    assert_eq!(batch_ranges(&vec![2, 0, 3]), vec![(0, 2), (2, 2), (2, 5)]);
    assert!(check_embedding("docs", &vec![true], Some(3), 3).is_ok());
    assert_eq!(
        check_embedding("docs", &vec![true, false], None, 3).unwrap_err(),
        "table `docs` has no `content` column to embed"
    );
    assert_eq!(
        check_embedding("docs", &vec![true], Some(2), 3).unwrap_err(),
        "embedding dim mismatch: got 2 expected 3"
    );
}

#[test]
fn the_model_of_the_vectors_is_recorded() {
    let stamped = stamp_embedding_metadata(Some(r#"{"table_name":"docs"}"#), "m", 3);
    assert_eq!(stamped.text_member("table_name"), Some("docs"));
    assert_eq!(stamped.text_member("embedding_model"), Some("m"));
    assert_eq!(stamped.get("embedding_dim").unwrap().as_u64(), Some(3));
    let fresh = stamp_embedding_metadata(None, "m", 3);
    assert_eq!(fresh.text_member("embedding_model"), Some("m"));
    let broken = stamp_embedding_metadata(Some("oops"), "m", 3);
    assert!(matches!(broken, Json::Object(_)));
    let mut meta: LanceMetadata = new_metadata(2, 5, "/p", "now");
    assert_eq!(read_embedding_info(&meta), None);
    meta.embedding_model = Some("m".to_string());
    meta.embedding_dim = Some(3);
    assert_eq!(read_embedding_info(&meta), Some(("m".to_string(), 3)));
    assert_eq!((meta.document_count, meta.chunk_count), (Some(2), Some(5)));
    let text = docs_meta(&Some(meta), "p").unwrap();
    assert!(text.contains("Documents:   2"), "{text}");
    assert_eq!(
        docs_meta(&None, "p").unwrap_err(),
        "No LanceDB metadata found for 'p'."
    );
    assert_eq!(
        docs_metadata_report(&None, "p"),
        "No LanceDB metadata found for bundle 'p'."
    );
}

#[test]
fn tools_are_run() {
    assert_eq!(db_path("/p"), "/p/.codegraph/codegraph.db");
    assert!(init_and_index("/p").contains(&"/p".to_string()));
    assert!(sync("/p").contains(&"sync".to_string()));
    assert_eq!(tool_output(true, " out \n", "err"), Ok("out".to_string()));
    assert_eq!(tool_output(true, " ", "err"), Ok("err".to_string()));
    assert_eq!(tool_output(false, "out", " err "), Err("err".to_string()));
    assert_eq!(tool_output(false, "out", ""), Err("out".to_string()));
    assert_eq!(version(" 1.2.3\n"), "1.2.3");
    let n = row_to_node(&node_row("f", None, (Some(4), None)));
    assert_eq!((n.start_line, n.end_line), (4, 0));
}

#[test]
fn bodies_are_shown_within_a_budget() {
    let answer = r#"[{"node":{"name":"f","qualifiedName":"m.f"}},{"node":{"name":"g"}}]"#;
    assert_eq!(symbols_to_fetch(answer), vec!["m.f", "g"]);
    let big = "x".repeat(11_999);
    let text = fmt_codegraph_with_source(answer, &vec![Some(big), Some("yy".to_string())]);
    assert!(text.contains("xxx"));
    assert!(!text.contains("yy"));
    assert_eq!(fmt_codegraph_with_source("[]", &vec![]), "No results.");
    assert_eq!(fmt_codegraph_with_source("oops", &vec![]), "oops");
    assert!(read_json("{").is_err());
}

fn symbol(name: &str) -> Json {
    let text = |t: &str| Json::Text(t.to_string());
    let node = vec![("name".to_string(), text(name)), ("kind".to_string(), text("function"))];
    Json::Object(vec![("node".to_string(), Json::Object(node))])
}

fn scored(name: &str, s: f32) -> RerankResult {
    RerankResult {
        source: name.to_string(),
        text: String::new(),
        origin: RerankOrigin::Codegraph,
        score: Score {
            key: score_key(s.to_bits()),
            short: format!("{s:.2}"),
            long: format!("{s:.3}"),
        },
    }
}

#[test]
fn items_are_picked_by_their_scores() {
    let items = || vec![symbol("a"), symbol("b"), symbol("a"), symbol("c")];
    let ranking = vec![scored("b", 0.9), scored("a", 0.5), scored("x", 0.4), scored("a", 0.3)];
    match reorder_items(items(), &ranking, 4) {
        Reordered::Items(v) => assert_eq!(item_names(&v), vec!["b", "a", "a"]),
        Reordered::AsIs => panic!("the items are scored"),
    }
    assert!(matches!(reorder_items(items(), &vec![scored("x", 1.0)], 4), Reordered::AsIs));
    assert!(matches!(reorder_items(vec![], &ranking, 4), Reordered::AsIs));
    assert!(matches!(
        reorder_items(items(), &ranking, 0),
        Reordered::Items(v) if v.is_empty()
    ));
    assert!(matches!(apply_rerank_to_codegraph_json("{}", &ranking, 4), Reordered::AsIs));
    assert!(matches!(
        apply_rerank_to_codegraph_json(r#"[{"node":{"name":"b"}}]"#, &ranking, 4),
        Reordered::Items(v) if v.len() == 1
    ));
}

#[test]
fn items_are_shown() {
    let items = vec![symbol("a"), symbol("b")];
    assert_eq!(items_to_candidates(&items).len(), 2);
    let text = fmt_items(&items);
    assert_eq!(text.lines().count(), 2, "{text}");
    assert!(text.contains('a') && text.contains('b'));
    assert_eq!(fmt_items(&vec![]), "No results.");
    assert_eq!(fmt_items_with_source(&vec![], &vec![]), "No results.");
    let text = fmt_items_with_source(&items, &vec![None, Some("fn b() {}".to_string())]);
    assert!(text.contains("```\nfn b() {}\n```"), "{text}");

    let text = fmt_reranked_items("q", &items, &vec![scored("b", 0.5), scored("a", 0.25)], 1);
    assert!(text.contains("0.50") && !text.contains("0.25"), "{text}");
    assert!(fmt_reranked_items("q", &items, &vec![], 3).contains('q'));
    assert_eq!(apply_rerank_to_codegraph("q", "oops", &vec![], 3), "oops");
}

#[test]
fn a_group_is_not_global() {
    assert_eq!(check_remove_options(Some("dev"), false), Ok(()));
    assert_eq!(check_remove_options(None, true), Ok(()));
    assert_eq!(check_remove_options(None, false), Ok(()));
    assert_eq!(
        check_remove_options(Some("dev"), true).unwrap_err(),
        "--group cannot be used with --global"
    );
}
