use sempkg::graph::{
    callees, callers, check_index, context, files, impact, node_to_json, query, status_text,
    GraphNode,
};
use sempkg::json::Json;
use sempkg::symbols::{fmt_codegraph_json, label_of};

fn node(id: &str, name: &str, file: &str, lines: (u32, u32), signature: Option<&str>) -> GraphNode {
    GraphNode {
        id: id.to_string(),
        name: name.to_string(),
        qualified_name: format!("shapes.{name}"),
        kind: "function".to_string(),
        file_path: file.to_string(),
        language: "python".to_string(),
        start_line: lines.0,
        end_line: lines.1,
        signature: signature.map(str::to_string),
        is_async: false,
    }
}

fn circle_area() -> GraphNode {
    node(
        "n1",
        "circle_area",
        "src/shapes.py",
        (34, 36),
        Some("(radius: Scalar) -> Scalar"),
    )
}

fn summarize() -> GraphNode {
    node("n2", "summarize", "src/report.py", (10, 20), None)
}

fn items(j: &Json) -> &[Json] {
    match j {
        Json::List(v) => v,
        _ => panic!("a list was expected"),
    }
}

fn node_name(j: &Json) -> &str {
    j.get("node").and_then(|n| n.text_member("name")).unwrap_or("")
}

#[test]
fn query_emits_enveloped_camelcase_symbol_objects() {
    let answer = query(&vec![summarize(), circle_area()]);
    let hit = items(&answer)
        .iter()
        .find(|v| node_name(v) == "circle_area")
        .expect("circle_area present");
    let node = hit.get("node").unwrap();
    assert_eq!(node.text_member("kind"), Some("function"));
    assert!(node.get("qualifiedName").unwrap().as_str().is_some());
    assert!(node.text_member("filePath").unwrap().contains("shapes.py"));
    assert_eq!(node.get("startLine").unwrap().as_u64().unwrap(), 34);
    assert_eq!(node.get("endLine").unwrap().as_u64().unwrap(), 36);
    assert_eq!(
        node.text_member("signature"),
        Some("(radius: Scalar) -> Scalar")
    );
}

#[test]
fn callers_are_distinct_enveloped_nodes() {
    let answer = callers(&vec![summarize(), circle_area(), summarize()]);
    let names: Vec<&str> = items(&answer).iter().map(node_name).collect();
    assert!(names.contains(&"summarize"), "{names:?}");
    let ids: Vec<&str> = items(&answer)
        .iter()
        .filter_map(|v| v.get("node").and_then(|n| n.text_member("id")))
        .collect();
    let mut uniq = ids.clone();
    uniq.sort_unstable();
    uniq.dedup();
    assert_eq!(ids.len(), uniq.len(), "duplicate caller nodes: {ids:?}");
    assert_eq!(ids, vec!["n2", "n1"]);
}

#[test]
fn callees_are_distinct_as_well() {
    let answer = callees(&vec![circle_area(), circle_area()]);
    assert_eq!(items(&answer).len(), 1);
}

#[test]
fn impact_and_context_shapes() {
    let imp = impact(&vec![summarize()]);
    assert!(items(&imp).iter().any(|v| node_name(v) == "summarize"));

    let ctx = context(&vec![circle_area()]);
    let nodes = items(ctx.get("nodes").expect("nodes array"));
    assert!(
        nodes.iter().any(|v| node_name(v) == "circle_area"),
        "{ctx:?}"
    );
}

#[test]
fn files_listing_and_filter() {
    let all_files: Vec<String> = [
        "a.py", "b.py", "shapes.py", "main.rs", "lib.rs", "x.ts", "y.go",
    ]
    .iter()
    .map(|f| f.to_string())
    .collect();
    let all = files("/p", &all_files, None, 100, true);
    assert!(all.lines().count() >= 7, "expected 7 files, got:\n{all}");

    let py = files("/p", &all_files, Some("*.py"), 100, true);
    assert!(py.lines().all(|l| l.ends_with(".py")), "glob leaked: {py}");
    assert_eq!(py.lines().count(), 3);
    assert!(files("/p", &all_files, Some("*.PY"), 100, true).starts_with("No files matched"));
    assert_eq!(files("/p", &all_files, Some("*.PY"), 100, false).lines().count(), 3);
    assert!(files("/p", &all_files, Some("[*"), 100, true).starts_with("Filter error: "));

    let none = files("/p", &all_files, Some("no_such_file"), 100, true);
    assert!(none.starts_with("No files matched"), "{none}");
}

#[test]
fn a_plain_filter_is_a_part_of_the_path() {
    let all_files = vec!["src/shapes.py".to_string(), "src/main.rs".to_string()];
    assert_eq!(files("/p", &all_files, Some("shapes"), 100, true), "src/shapes.py");
    assert_eq!(
        files("/p", &all_files, None, 1, true),
        "src/shapes.py\n\u{2026} 1 more file(s) not shown (limit 1). \
         Use a filter to narrow results."
    );
}

#[test]
fn status_text_reports_counts() {
    let s = status_text(4, 7, 67, 120);
    assert!(s.contains("7 files"), "{s}");
    assert!(s.contains("67 nodes"), "{s}");
    assert!(s.contains("schema v4"), "{s}");
}

#[test]
fn missing_index_is_actionable_error() {
    let err = check_index("/tmp/empty", false).unwrap_err();
    assert!(err.contains("No codegraph index found"), "{err}");
    assert!(check_index("/tmp/full", true).is_ok());
}

#[test]
fn a_written_symbol_is_read_back() {
    let written = node_to_json(&circle_area());
    assert_eq!(label_of(&written), "shapes.circle_area");
    assert_eq!(written.word("name"), "circle_area");
    assert_eq!(written.count("startLine", 0), 34);
    assert_eq!(written.word("missing"), "");
}

#[test]
fn an_answer_that_is_no_list_is_shown_as_it_is() {
    assert_eq!(fmt_codegraph_json("not json"), "not json");
}
