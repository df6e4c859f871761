use sempkg::docs::{fetch_doc_lines, DocRow};
use sempkg::indexing::index_documents;
use sempkg::lance::{doc_filter, DocSlice};

type Row = (&'static str, &'static str, u32, u32);

/// The rows that a table hands out for the chunks of a file.
fn stored(rows: &[Row], file: &str) -> Vec<DocRow> {
    rows.iter()
        .enumerate()
        .filter(|(_, r)| {
            r.0 == file
                || r.0.starts_with(&format!("{file}#"))
                || r.0.ends_with(&format!("/{file}"))
                || r.0.contains(&format!("/{file}#"))
        })
        .map(|(i, r)| DocRow {
            path: r.0.to_string(),
            content: r.1.to_string(),
            start_line: r.2,
            end_line: r.3,
            row: i as u32,
        })
        .collect()
}

fn read(rows: &[Row], file: &str, from: Option<u32>, to: Option<u32>) -> Option<DocSlice> {
    fetch_doc_lines(file, &stored(rows, file), true, from, to)
}

#[test]
fn read_docs_whole_file_concatenates_chunks_in_order() {
    let rows = [
        ("other.md#0", "unrelated content", 1, 2),
        ("guide.md#1", "second chunk body", 5, 7),
        ("guide.md#0", "first chunk body", 1, 3),
    ];
    let slice = read(&rows, "guide.md", None, None).expect("guide.md should be found");

    assert_eq!(slice.path, "guide.md");
    assert_eq!(slice.chunk_count, 2);
    assert_eq!(slice.start_line, 1);
    assert_eq!(slice.end_line, 7);
    assert!(!slice.line_meta_missing);
    assert_eq!(slice.content, "first chunk body\n\nsecond chunk body");
    assert!(!slice.content.contains("unrelated"));
}

#[test]
fn read_docs_line_range_returns_only_requested_lines() {
    let rows = [
        ("guide.md#0", "line1\nline2\nline3", 1, 3),
        ("guide.md#1", "line5\nline6\nline7", 5, 7),
    ];

    let slice = read(&rows, "guide.md", Some(6), Some(7)).expect("guide.md should be found");
    assert_eq!(slice.content, "line6\nline7");
    assert_eq!(slice.start_line, 6);
    assert_eq!(slice.end_line, 7);
    assert_eq!(slice.chunk_count, 1);

    let slice = read(&rows, "guide.md", Some(2), Some(6)).unwrap();
    assert_eq!(slice.content, "line2\nline3\n\nline5\nline6");
    assert_eq!(slice.start_line, 2);
    assert_eq!(slice.end_line, 6);
    assert_eq!(slice.chunk_count, 2);

    let slice = read(&rows, "guide.md", Some(6), None).unwrap();
    assert_eq!(slice.content, "line6\nline7");
}

#[test]
fn read_docs_unknown_file_returns_none() {
    let rows = [("guide.md#0", "body", 1, 3)];
    assert!(read(&rows, "missing.md", None, None).is_none());
}

#[test]
fn read_docs_without_line_metadata_returns_all_chunks() {
    let rows = [("guide.md#0", "alpha", 0, 0), ("guide.md#1", "beta", 0, 0)];
    let slice = fetch_doc_lines(
        "guide.md",
        &stored(&rows, "guide.md"),
        false,
        Some(100),
        Some(200),
    )
    .unwrap();
    assert!(slice.line_meta_missing);
    assert_eq!(slice.chunk_count, 2);
    assert!(slice.content.contains("alpha") && slice.content.contains("beta"));
}

/// The chunks of a document as the index stores and hands them out.
fn indexed(path: &str, text: &str) -> Vec<DocRow> {
    index_documents(&vec![(path.to_string(), text.to_string())])
        .unwrap()
        .into_iter()
        .enumerate()
        .map(|(i, r)| DocRow {
            path: r.path,
            content: r.chunk.text,
            start_line: r.chunk.start_line,
            end_line: r.chunk.end_line,
            row: i as u32,
        })
        .collect()
}

#[test]
fn read_docs_end_to_end_via_cli_update() {
    let md = "# Title\n\nAlpha paragraph about widgets.\n\nBeta paragraph about gadgets.\n";
    let rows = indexed("docs/guide.md", md);

    let slice = fetch_doc_lines("docs/guide.md", &rows, true, None, None)
        .expect("indexed doc should be found");
    assert_eq!(slice.start_line, 1);
    assert!(slice.end_line >= 5, "end_line was {}", slice.end_line);
    assert!(!slice.line_meta_missing);
    assert!(slice.content.contains("Alpha"));
    assert!(slice.content.contains("Beta"));

    assert!(fetch_doc_lines("nope.md", &Vec::new(), true, None, None).is_none());
}

#[test]
fn read_docs_line_range_resolves_whole_lines_via_cli_update() {
    let md = "alpha one\nbeta two\ngamma three\ndelta four\nepsilon five\nzeta six\n";
    let rows = indexed("docs/nums.md", md);

    let slice = fetch_doc_lines("docs/nums.md", &rows, true, Some(3), Some(4))
        .expect("indexed doc should be found");
    assert_eq!(slice.start_line, 3);
    assert_eq!(slice.end_line, 4);
    assert_eq!(slice.content, "gamma three\ndelta four");
    assert!(!slice.line_meta_missing);
}

#[test]
fn lines_that_no_chunk_has_are_not_found() {
    let rows = [("guide.md#0", "line1\nline2", 1, 2)];
    assert!(read(&rows, "guide.md", Some(9), Some(12)).is_none());
}

#[test]
fn the_filter_quotes_the_name() {
    assert_eq!(
        doc_filter("it's.md"),
        "(path = 'it''s.md' OR path LIKE 'it''s.md#%' OR path LIKE '%/it''s.md' \
         OR path LIKE '%/it''s.md#%')"
    );
}
