use sempkg::chunker::chunk_text;
use sempkg::indexing::{expand_braces, expand_patterns, index_documents, matches_any};

#[test]
fn paragraphs_are_packed_into_chunks() {
    let chunks = chunk_text("one\n\ntwo\n\nthree", 9);
    let texts: Vec<&str> = chunks.iter().map(|c| c.text.as_str()).collect();
    assert_eq!(texts, vec!["one\n\ntwo", "three"]);
    assert_eq!((chunks[0].start_line, chunks[0].end_line), (1, 3));
    assert_eq!((chunks[1].start_line, chunks[1].end_line), (5, 5));
    assert_eq!((chunks[1].start_byte, chunks[1].end_byte), (10, 15));
}

#[test]
fn a_large_paragraph_is_cut_at_its_lines() {
    let chunks = chunk_text("aaaa\nbbbb\ncccc", 10);
    assert!(chunks.len() > 1);
    let joined: String = chunks
        .iter()
        .map(|c| c.text.trim().to_string())
        .collect::<Vec<_>>()
        .join("\n");
    assert_eq!(joined, "aaaa\nbbbb\ncccc");
    for c in &chunks {
        assert!(c.text.len() <= 10, "{:?}", c.text);
    }
}

#[test]
fn all_words_are_kept() {
    let text = "# Title\n\nAlpha beta.\n\n\n\nGamma\ndelta\n\nlong line without any break in it\n";
    let chunks = chunk_text(text, 12);
    let kept: String = chunks
        .iter()
        .flat_map(|c| c.text.chars())
        .filter(|c| !c.is_whitespace())
        .collect();
    let all: String = text.chars().filter(|c| !c.is_whitespace()).collect();
    assert_eq!(kept, all);
}

#[test]
fn lines_of_a_chunk_are_lines_of_the_document() {
    let text = "a\nb\n\nc\nd\n";
    let lines: Vec<&str> = text.split('\n').collect();
    for c in chunk_text(text, 800) {
        for (i, l) in c.text.split('\n').enumerate() {
            assert_eq!(l, lines[c.start_line as usize - 1 + i]);
        }
    }
}

#[test]
fn an_empty_text_has_no_chunk() {
    assert!(chunk_text("", 800).is_empty());
}

#[test]
fn braces_are_expanded() {
    assert_eq!(
        expand_braces("**/*.{md,rst,txt}"),
        vec!["**/*.md", "**/*.rst", "**/*.txt"]
    );
    assert_eq!(expand_braces("*.md"), vec!["*.md"]);
}

#[test]
fn patterns_choose_documents() {
    let patterns = expand_patterns("**/*.{md,txt}");
    assert!(matches_any(&patterns, "docs/guide.md"));
    assert!(matches_any(&patterns, "notes.txt"));
    assert!(!matches_any(&patterns, "src/main.rs"));
}

#[test]
fn nothing_to_index_is_an_error() {
    assert_eq!(
        index_documents(&vec![]).unwrap_err().message(),
        "LanceDB error: no documents matched \u{2014} check glob pattern"
    );
    let rows = index_documents(&vec![
        ("a.md".to_string(), "alpha".to_string()),
        ("b.md".to_string(), "beta".to_string()),
    ])
    .unwrap();
    let shown: Vec<(&str, &str)> = rows
        .iter()
        .map(|r| (r.path.as_str(), r.chunk.text.as_str()))
        .collect();
    assert_eq!(shown, vec![("a.md", "alpha"), ("b.md", "beta")]);
}
