//! The search tables of a bundle: what is asked of them, and what is made of the rows
//! that they give.

use vstd::prelude::*;
use vstd::slice::slice_subrange;

use crate::codegraph::NodeRecord;
use crate::error::SempkgError;
use crate::github;
use crate::github::cut;
use crate::json;
use crate::json::{number, read_json, set_member, Json, JsonView};
use crate::paths;
use crate::paths::join_path;
use crate::pieces;
use crate::pieces::{copy_opt, join_texts, lines_of, replace_text, write_decimal};
use crate::text;
use crate::text::{chars_of, same_text, string_of};

verus! {

// ---------------------------------------------------------------------------
// Paths
// ---------------------------------------------------------------------------

/// The table of documentation.
pub fn lance_dir_path(bundle_dir: &str) -> (r: String)
    ensures
        r@ == paths::joined(bundle_dir@, "lance"@),
{
    join_path(bundle_dir, "lance")
}

/// What is recorded of the table of documentation.
pub fn lance_metadata_path(bundle_dir: &str) -> (r: String)
    ensures
        r@ == paths::joined(paths::joined(bundle_dir@, "lance"@), "metadata.json"@),
{
    join_path(join_path(bundle_dir, "lance").as_str(), "metadata.json")
}

/// The table of source code.
pub fn code_dir_path(bundle_dir: &str) -> (r: String)
    ensures
        r@ == paths::joined(bundle_dir@, "code"@),
{
    join_path(bundle_dir, "code")
}

// ---------------------------------------------------------------------------
// Types
// ---------------------------------------------------------------------------

/// What is recorded of a table.
#[derive(Debug, Clone)]
pub struct LanceMetadata {
    pub table_name: Option<String>,
    pub document_count: Option<u64>,
    pub chunk_count: Option<u64>,
    pub fts_enabled: Option<bool>,
    pub indexed_paths: Option<Vec<String>>,
    pub created_at: Option<String>,
    /// The model that made the vectors, where there are any.
    pub embedding_model: Option<String>,
    /// The dimension of the vectors.
    pub embedding_dim: Option<u32>,
}

/// The model and the dimension of a table's vectors, where both are recorded.
pub fn read_embedding_info(meta: &LanceMetadata) -> (r: Option<(String, u32)>)
    ensures
        match r {
            Some((m, d)) => meta.embedding_model is Some && m@ == meta.embedding_model->0@
                && meta.embedding_dim == Some(d),
            None => meta.embedding_model is None || meta.embedding_dim is None,
        },
{
    match (&meta.embedding_model, meta.embedding_dim) {
        (Some(m), Some(d)) => Some((m.clone(), d)),
        _ => None,
    }
}

/// One hit of a search.
#[derive(Debug, Clone)]
pub struct SearchResult {
    pub path: String,
    pub snippet: String,
    /// The chunk's first line in its file; 0 where it is not known.
    pub start_line: u32,
    /// The chunk's last line.
    pub end_line: u32,
    /// The byte that the chunk begins at.
    pub start_byte: u32,
    /// The byte behind the chunk.
    pub end_byte: u32,
    /// Known of code only.
    pub symbol: Option<String>,
    pub kind: Option<String>,
    pub signature: Option<String>,
}

/// The source of a symbol.
#[derive(Debug, Clone)]
pub struct SymbolSource {
    pub path: String,
    pub symbol: String,
    pub kind: String,
    pub signature: String,
    pub content: String,
    pub start_line: u32,
    pub end_line: u32,
}

/// A part of a documentation file.
#[derive(Debug, Clone)]
pub struct DocSlice {
    pub path: String,
    pub content: String,
    /// The first line that `content` covers; 0 where it is not known.
    pub start_line: u32,
    /// The last line that `content` covers.
    pub end_line: u32,
    /// How many chunks `content` was put together from.
    pub chunk_count: usize,
    /// Whether the table has no line numbers, so that no range could be applied.
    pub line_meta_missing: bool,
}

/// One of several symbols of a name.
#[derive(Debug, Clone)]
pub struct SymbolCandidate {
    pub name: String,
    pub qualified_name: String,
    pub kind: String,
    pub path: String,
    pub start_line: u32,
    pub end_line: u32,
}

/// What a lookup of a symbol found.
#[derive(Debug, Clone)]
pub enum SymbolLookup {
    /// One match, with its source.
    Unique(SymbolSource),
    /// Several nodes of that name.
    Ambiguous(Vec<SymbolCandidate>),
    /// No match.
    NotFound,
}

/// A row of a search table. A column that the table does not have is absent, and its
/// numbers are 0.
#[derive(Debug, Clone)]
pub struct TableRow {
    pub path: String,
    pub content: String,
    pub start_line: u32,
    pub end_line: u32,
    pub start_byte: u32,
    pub end_byte: u32,
    pub symbol: Option<String>,
    pub kind: Option<String>,
    pub signature: Option<String>,
}

// ---------------------------------------------------------------------------
// Search hits
// ---------------------------------------------------------------------------

/// The longest snippet of a hit.
pub open spec fn snippet_limit(is_code: bool) -> int {
    if is_code {
        600
    } else {
        400
    }
}

/// The beginning of a text, of at most `n` characters.
pub open spec fn beginning(s: Seq<char>, n: int) -> Seq<char> {
    if s.len() > n {
        s.take(n)
    } else {
        s
    }
}

pub fn take_chars(s: &str, n: usize) -> (r: String)
    ensures
        r@ == beginning(s@, n as int),
{
    let cs = chars_of(s);
    if cs.len() > n {
        assert(cs@.subrange(0, n as int) =~= cs@.take(n as int));
        string_of(slice_subrange(cs.as_slice(), 0, n))
    } else {
        s.to_owned()
    }
}

/// The hit that a row is: its path without the number of its chunk, and the beginning
/// of its content. Only a row of the code table has a symbol.
pub open spec fn is_hit(r: SearchResult, row: TableRow, is_code: bool) -> bool {
    &&& r.path@ == github::before(row.path@, '#')
    &&& r.snippet@ == beginning(row.content@, snippet_limit(is_code))
    &&& r.start_line == row.start_line
    &&& r.end_line == row.end_line
    &&& r.start_byte == row.start_byte
    &&& r.end_byte == row.end_byte
    &&& pieces::opt_text(r.symbol) == (if is_code {
        pieces::opt_text(row.symbol)
    } else {
        None
    })
    &&& pieces::opt_text(r.kind) == (if is_code {
        pieces::opt_text(row.kind)
    } else {
        None
    })
    &&& pieces::opt_text(r.signature) == (if is_code {
        pieces::opt_text(row.signature)
    } else {
        None
    })
}

fn hit(row: &TableRow, is_code: bool) -> (r: SearchResult)
    ensures
        is_hit(r, *row, is_code),
{
    let pc = chars_of(row.path.as_str());
    let (path, _) = cut(pc.as_slice(), '#');
    let limit: usize = if is_code {
        600
    } else {
        400
    };
    SearchResult {
        path: string_of(path),
        snippet: take_chars(row.content.as_str(), limit),
        start_line: row.start_line,
        end_line: row.end_line,
        start_byte: row.start_byte,
        end_byte: row.end_byte,
        symbol: if is_code {
            copy_opt(&row.symbol)
        } else {
            None
        },
        kind: if is_code {
            copy_opt(&row.kind)
        } else {
            None
        },
        signature: if is_code {
            copy_opt(&row.signature)
        } else {
            None
        },
    }
}

/// The hits that the rows of a search are, one each.
pub fn extract_results(rows: &Vec<TableRow>, is_code: bool) -> (r: Vec<SearchResult>)
    ensures
        r@.len() == rows@.len(),
        forall|i: int| 0 <= i < r@.len() ==> is_hit(#[trigger] r@[i], rows@[i], is_code),
{
    let mut r: Vec<SearchResult> = Vec::new();
    let mut i: usize = 0;
    while i < rows.len()
        invariant
            i <= rows@.len(),
            r@.len() == i,
            forall|j: int| 0 <= j < i ==> is_hit(#[trigger] r@[j], rows@[j], is_code),
        decreases rows.len() - i,
    {
        r.push(hit(&rows[i], is_code));
        i = i + 1;
    }
    r
}

/// The error of an index that is not there.
pub open spec fn is_missing(e: SempkgError, dir: Seq<char>) -> bool {
    e matches SempkgError::NoLanceIndex(p) && p@ == dir
}

/// The directory of an index has to be there to be asked.
pub fn check_table(dir: &str, is_dir: bool) -> (r: Result<(), SempkgError>)
    ensures
        match r {
            Ok(_) => is_dir,
            Err(e) => !is_dir && is_missing(e, dir@),
        },
{
    if is_dir {
        Ok(())
    } else {
        Err(SempkgError::NoLanceIndex(dir.to_owned()))
    }
}

/// What a search of an index gives: the hits that its rows are, or an error where the
/// directory of the index is not there.
pub open spec fn is_found(
    r: Result<Vec<SearchResult>, SempkgError>,
    dir: Seq<char>,
    is_dir: bool,
    rows: Seq<TableRow>,
    is_code: bool,
) -> bool {
    match r {
        Ok(v) => is_dir && v@.len() == rows.len() && forall|i: int|
            0 <= i < v@.len() ==> is_hit(#[trigger] v@[i], rows[i], is_code),
        Err(e) => !is_dir && is_missing(e, dir),
    }
}

/// The hits of a search of the documentation in an index; `rows` are what the index gave.
pub fn search(dir: &str, is_dir: bool, rows: &Vec<TableRow>) -> (r: Result<
    Vec<SearchResult>,
    SempkgError,
>)
    ensures
        is_found(r, dir@, is_dir, rows@, false),
{
    match check_table(dir, is_dir) {
        Ok(_) => Ok(extract_results(rows, false)),
        Err(e) => Err(e),
    }
}

/// The hits of a search of the source code in an index; `rows` are what the index gave.
pub fn search_code(dir: &str, is_dir: bool, rows: &Vec<TableRow>) -> (r: Result<
    Vec<SearchResult>,
    SempkgError,
>)
    ensures
        is_found(r, dir@, is_dir, rows@, true),
{
    match check_table(dir, is_dir) {
        Ok(_) => Ok(extract_results(rows, true)),
        Err(e) => Err(e),
    }
}

// ---------------------------------------------------------------------------
// Filters
// ---------------------------------------------------------------------------

/// A text inside the quotes of a filter: every quote in it is doubled.
pub open spec fn quoted(s: Seq<char>) -> Seq<char> {
    pieces::replaced(s, "'"@, "''"@)
}

fn quote(s: &str) -> (r: String)
    ensures
        r@ == quoted(s@),
{
    proof {
        reveal_strlit("'");
        assert("'"@.len() == 1);
    }
    replace_text(s, "'", "''")
}

/// What a row's path must be: the file itself, or the file in some directory.
pub open spec fn path_filter(file: Seq<char>) -> Seq<char> {
    let f = quoted(file);
    "(path = '"@ + f + "' OR path LIKE '%/"@ + f + "' OR path LIKE '%\\\\"@ + f + "')"@
}

fn write_path_filter(file: &str) -> (r: String)
    ensures
        r@ == path_filter(file@),
{
    let f = quote(file);
    let mut r = "(path = '".to_owned();
    r.append(f.as_str());
    r.append("' OR path LIKE '%/");
    r.append(f.as_str());
    r.append("' OR path LIKE '%\\\\");
    r.append(f.as_str());
    r.append("')");
    r
}

/// The filter that finds the row of a node.
pub fn node_filter(node: &NodeRecord) -> (r: String)
    ensures
        r@ == path_filter(node.file_path@) + " AND start_line = "@ + pieces::decimal(
            node.start_line as nat,
        ),
{
    let mut r = write_path_filter(node.file_path.as_str());
    r.append(" AND start_line = ");
    r.append(write_decimal(node.start_line as u64).as_str());
    r
}

/// The filter that finds the rows around a line of a file.
pub fn location_filter(file: &str, line: u32) -> (r: String)
    ensures
        r@ == path_filter(file@) + " AND start_line <= "@ + pieces::decimal(line as nat)
            + " AND end_line >= "@ + pieces::decimal(line as nat),
{
    let n = write_decimal(line as u64);
    let mut r = write_path_filter(file);
    r.append(" AND start_line <= ");
    r.append(n.as_str());
    r.append(" AND end_line >= ");
    r.append(n.as_str());
    r
}

/// The filter that finds the chunks of a documentation file, with or without the
/// number of the chunk and in any directory.
pub fn doc_filter(file: &str) -> (r: String)
    ensures
        ({
            let f = quoted(file@);
            r@ == "(path = '"@ + f + "' OR path LIKE '"@ + f + "#%' OR path LIKE '%/"@ + f
                + "' OR path LIKE '%/"@ + f + "#%')"@
        }),
{
    let f = quote(file);
    let mut r = "(path = '".to_owned();
    r.append(f.as_str());
    r.append("' OR path LIKE '");
    r.append(f.as_str());
    r.append("#%' OR path LIKE '%/");
    r.append(f.as_str());
    r.append("' OR path LIKE '%/");
    r.append(f.as_str());
    r.append("#%')");
    r
}

// ---------------------------------------------------------------------------
// Source of symbols
// ---------------------------------------------------------------------------

/// Lines one after another.
pub open spec fn join_lines(ls: Seq<Seq<char>>) -> Seq<char> {
    pieces::join(ls, "\n"@)
}

/// The lines of a text from `skip` on, `keep` of them at most.
pub open spec fn line_range(s: Seq<char>, skip: int, keep: int) -> Seq<Seq<char>> {
    let ls = pieces::lines(s);
    let from = if skip < ls.len() {
        skip
    } else {
        ls.len() as int
    };
    let to = if from + keep < ls.len() {
        from + keep
    } else {
        ls.len() as int
    };
    ls.subrange(from, to)
}

/// The lines `[exact_start, exact_end]` of a chunk that begins at line `chunk_start`.
/// Where a line number is not known, or nothing of the chunk is in the range, it is
/// the chunk as it is.
pub open spec fn sliced(
    content: Seq<char>,
    chunk_start: u32,
    exact_start: u32,
    exact_end: u32,
) -> Seq<char> {
    let keep = exact_end - exact_start + 1;
    if chunk_start == 0 || exact_start == 0 || exact_end == 0 {
        content
    } else if chunk_start == exact_start {
        join_lines(line_range(content, 0, keep))
    } else {
        let skip = if exact_start > chunk_start {
            exact_start - chunk_start
        } else {
            0
        };
        let ls = line_range(content, skip, keep);
        if ls.len() == 0 {
            content
        } else {
            join_lines(ls)
        }
    }
}

fn range_of_lines(content: &str, skip: usize, keep: usize) -> (r: Vec<String>)
    ensures
        pieces::texts(r@) == line_range(content@, skip as int, keep as int),
{
    let cs = chars_of(content);
    let ls = lines_of(cs.as_slice());
    let ghost all = pieces::lines(content@);
    let mut r: Vec<String> = Vec::new();
    let from: usize = if skip < ls.len() {
        skip
    } else {
        ls.len()
    };
    let to: usize = if ls.len() - from > keep {
        from + keep
    } else {
        ls.len()
    };
    let mut i: usize = from;
    assert(pieces::texts(r@) =~= all.subrange(from as int, from as int));
    while i < to
        invariant
            from <= i <= to <= ls@.len(),
            all == pieces::rows(ls@),
            pieces::texts(r@) == all.subrange(from as int, i as int),
        decreases to - i,
    {
        let ghost before = pieces::texts(r@);
        r.push(string_of(ls[i].as_slice()));
        proof {
            assert(pieces::texts(r@) =~= before.push(ls@[i as int]@));
            assert(all.subrange(from as int, i + 1) =~= all.subrange(from as int, i as int).push(
                all[i as int],
            ));
        }
        i = i + 1;
    }
    r
}

/// Cut a chunk down to a range of lines; both ends are lines of the file, counted from
/// 1, and belong to the range.
pub fn slice_content_to_range(
    content: &str,
    chunk_start: u32,
    exact_start: u32,
    exact_end: u32,
) -> (r: String)
    requires
        chunk_start != 0 && exact_start != 0 && exact_end != 0 ==> exact_start <= exact_end,
    ensures
        r@ == sliced(content@, chunk_start, exact_start, exact_end),
{
    if chunk_start == 0 || exact_start == 0 || exact_end == 0 {
        return content.to_owned();
    }
    let keep: usize = (exact_end - exact_start + 1) as usize;
    if chunk_start == exact_start {
        return join_texts(&range_of_lines(content, 0, keep), "\n");
    }
    let skip: usize = if exact_start > chunk_start {
        (exact_start - chunk_start) as usize
    } else {
        0
    };
    let ls = range_of_lines(content, skip, keep);
    if ls.len() == 0 {
        content.to_owned()
    } else {
        join_texts(&ls, "\n")
    }
}

/// The lines that are asked for come back, all of them and no others: of a chunk that was put
/// together from lines, the first of which is line `from` of the file, the range from line
/// `a` to line `b` is just the lines that stand there.
pub proof fn the_lines_asked_for_come_back(ls: Seq<Seq<char>>, from: u32, a: u32, b: u32)
    requires
        forall|i: int| 0 <= i < ls.len() ==> pieces::is_line(#[trigger] ls[i]),
        ls.len() > 0 && ls.last().len() > 0,
        0 < from <= a <= b < from + ls.len(),
    ensures
        sliced(pieces::join(ls, "\n"@), from, a, b) == pieces::join(
            ls.subrange(a - from, b - from + 1),
            "\n"@,
        ),
{
    pieces::joined_lines_are_read_back(ls);
}

/// A range that goes beyond the chunk is cut off at its ends: what comes back are the lines
/// of the chunk that are in the range.
pub proof fn lines_beyond_a_chunk_are_left_out(ls: Seq<Seq<char>>, from: u32, a: u32, b: u32)
    requires
        forall|i: int| 0 <= i < ls.len() ==> pieces::is_line(#[trigger] ls[i]),
        ls.len() > 0 && ls.last().len() > 0,
        0 < from <= a < from + ls.len() <= b,
    ensures
        sliced(pieces::join(ls, "\n"@), from, a, b) == pieces::join(
            ls.subrange(a - from, ls.len() as int),
            "\n"@,
        ),
{
    pieces::joined_lines_are_read_back(ls);
}

/// Without line numbers, or where nothing of the chunk is in the range, the chunk comes back
/// as it is.
pub proof fn an_unplaced_chunk_comes_back_whole(content: Seq<char>, from: u32, a: u32, b: u32)
    requires
        from == 0 || a == 0 || b == 0 || (from < a <= b && a - from >= pieces::lines(content).len()),
    ensures
        sliced(content, from, a, b) == content,
{
}

/// The row that a symbol's source is taken from: with a node the first row of all,
/// without one the first row of that very symbol.
pub open spec fn chosen_row(rows: Seq<TableRow>, by_node: bool, hint: Seq<char>) -> Option<int>
    decreases rows.len(),
{
    if rows.len() == 0 {
        None
    } else {
        match chosen_row(rows.drop_last(), by_node, hint) {
            Some(i) => Some(i),
            None => if by_node || pieces::opt_text(rows.last().symbol) == Some(hint) || (
            rows.last().symbol is None && hint.len() == 0) {
                Some(rows.len() - 1)
            } else {
                None
            },
        }
    }
}

/// The text of the first of two that is there, else nothing.
pub open spec fn either(a: Option<Seq<char>>, b: Option<Seq<char>>) -> Seq<char> {
    match a {
        Some(x) => x,
        None => match b {
            Some(y) => y,
            None => seq![],
        },
    }
}

/// The source that a row gives of a symbol: what the node says counts before what the
/// row says, and the content is cut to the node's lines.
pub open spec fn is_source(src: SymbolSource, row: TableRow, node: Option<NodeRecord>) -> bool {
    let (from, to) = match node {
        Some(n) => (n.start_line, n.end_line),
        None => (row.start_line, row.end_line),
    };
    &&& src.path@ == row.path@
    &&& src.symbol@ == (match node {
        Some(n) => n.name@,
        None => either(pieces::opt_text(row.symbol), None),
    })
    &&& src.kind@ == (match node {
        Some(n) => n.kind@,
        None => either(pieces::opt_text(row.kind), None),
    })
    &&& src.signature@ == either(
        match node {
            Some(n) => pieces::opt_text(n.signature),
            None => None,
        },
        pieces::opt_text(row.signature),
    )
    &&& src.content@ == sliced(row.content@, row.start_line, from, to)
    &&& src.start_line == from
    &&& src.end_line == to
}

/// The lines of a symbol can be cut out of the row that its source is taken from: where
/// both are known, the lines do not end before they begin.
pub open spec fn range_sound(rows: Seq<TableRow>, node: Option<NodeRecord>, hint: Seq<char>) -> bool {
    match chosen_row(rows, node is Some, hint) {
        Some(k) => {
            let (from, to) = match node {
                Some(n) => (n.start_line, n.end_line),
                None => (rows[k].start_line, rows[k].end_line),
            };
            rows[k].start_line == 0 || from == 0 || to == 0 || from <= to
        },
        None => true,
    }
}

pub open spec fn node_of(node: Option<&NodeRecord>) -> Option<NodeRecord> {
    match node {
        Some(n) => Some(*n),
        None => None,
    }
}

fn text_of(t: &Option<String>) -> (r: String)
    ensures
        r@ == either(pieces::opt_text(*t), None),
{
    match t {
        Some(s) => s.clone(),
        None => String::new(),
    }
}

/// Find the row that a symbol's source is taken from.
fn choose_row(rows: &Vec<TableRow>, by_node: bool, hint: &str) -> (r: Option<usize>)
    ensures
        match r {
            Some(j) => j < rows@.len() && chosen_row(rows@, by_node, hint@) == Some(j as int),
            None => chosen_row(rows@, by_node, hint@) is None,
        },
{
    let mut i: usize = 0;
    let mut found: Option<usize> = None;
    while i < rows.len() && found.is_none()
        invariant
            i <= rows@.len(),
            match found {
                Some(j) => j < rows@.len() && chosen_row(rows@.take(i as int), by_node, hint@)
                    == Some(j as int),
                None => chosen_row(rows@.take(i as int), by_node, hint@) is None,
            },
        decreases rows.len() - i,
    {
        proof {
            assert(rows@.take(i + 1).drop_last() =~= rows@.take(i as int));
            assert(rows@.take(i + 1).last() == rows@[i as int]);
        }
        let name = text_of(&rows[i].symbol);
        proof {
            assert(name@ == hint@ <==> pieces::opt_text(rows@[i as int].symbol) == Some(hint@) || (
            rows@[i as int].symbol is None && hint@.len() == 0)) by {
                if rows@[i as int].symbol is None {
                    assert(name@ =~= seq![]);
                    if hint@.len() == 0 {
                        assert(hint@ =~= seq![]);
                    }
                }
            }
        }
        if by_node || same_text(name.as_str(), hint) {
            found = Some(i);
        }
        i = i + 1;
    }
    proof {
        lemma_chosen_row(rows@, by_node, hint@, i as int);
        assert(rows@.take(rows@.len() as int) =~= rows@);
    }
    found
}

/// The lines that the source of a symbol is on.
fn source_lines(row: &TableRow, node: Option<&NodeRecord>) -> (r: (u32, u32))
    ensures
        r == (match node_of(node) {
            Some(n) => (n.start_line, n.end_line),
            None => (row.start_line, row.end_line),
        }),
{
    match node {
        Some(n) => (n.start_line, n.end_line),
        None => (row.start_line, row.end_line),
    }
}

/// Whether the lines of a symbol can be cut out of the row that its source is taken from.
pub fn is_range_sound(rows: &Vec<TableRow>, node: Option<&NodeRecord>, hint: &str) -> (r: bool)
    ensures
        r == range_sound(rows@, node_of(node), hint@),
{
    match choose_row(rows, node.is_some(), hint) {
        None => true,
        Some(j) => {
            let (from, to) = source_lines(&rows[j], node);
            rows[j].start_line == 0 || from == 0 || to == 0 || from <= to
        },
    }
}

/// Take the source of a symbol from the rows that were found for it: by its node, or
/// by its name `hint` where there is no node.
pub fn fetch_from_code_table(rows: &Vec<TableRow>, node: Option<&NodeRecord>, hint: &str) -> (r:
    Option<SymbolSource>)
    requires
        range_sound(rows@, node_of(node), hint@),
    ensures
        match r {
            Some(src) => chosen_row(rows@, node is Some, hint@) is Some && is_source(
                src,
                rows@[chosen_row(rows@, node is Some, hint@)->0],
                node_of(node),
            ),
            None => chosen_row(rows@, node is Some, hint@) is None,
        },
{
    match choose_row(rows, node.is_some(), hint) {
        None => None,
        Some(j) => {
            let row = &rows[j];
            let (from, to) = source_lines(row, node);
            let content = slice_content_to_range(row.content.as_str(), row.start_line, from, to);
            let symbol = match node {
                Some(n) => n.name.clone(),
                None => text_of(&row.symbol),
            };
            let kind = match node {
                Some(n) => n.kind.clone(),
                None => text_of(&row.kind),
            };
            let signature = match node {
                Some(n) => match &n.signature {
                    Some(s) => s.clone(),
                    None => text_of(&row.signature),
                },
                None => text_of(&row.signature),
            };
            Some(
                SymbolSource {
                    path: row.path.clone(),
                    symbol,
                    kind,
                    signature,
                    content,
                    start_line: from,
                    end_line: to,
                },
            )
        },
    }
}

/// A row that is chosen among the first rows is chosen among all of them.
proof fn lemma_chosen_row(rows: Seq<TableRow>, by_node: bool, hint: Seq<char>, i: int)
    requires
        0 <= i <= rows.len(),
    ensures
        chosen_row(rows.take(i), by_node, hint) is Some ==> chosen_row(rows, by_node, hint)
            == chosen_row(rows.take(i), by_node, hint),
    decreases rows.len() - i,
{
    if i < rows.len() {
        assert(rows.take(i + 1).drop_last() =~= rows.take(i));
        lemma_chosen_row(rows, by_node, hint, i + 1);
    } else {
        assert(rows.take(i) =~= rows);
    }
}

/// The candidate that a node is.
pub open spec fn is_candidate(c: SymbolCandidate, n: NodeRecord) -> bool {
    c.name@ == n.name@ && c.qualified_name@ == n.qualified_name@ && c.kind@ == n.kind@ && c.path@
        == n.file_path@ && c.start_line == n.start_line && c.end_line == n.end_line
}

/// Whether a name has to be told apart first: more than one node bears it. The answer
/// is then the list of them.
pub fn ambiguous_symbol(nodes: &Vec<NodeRecord>) -> (r: Option<Vec<SymbolCandidate>>)
    ensures
        match r {
            Some(cs) => nodes@.len() > 1 && cs@.len() == nodes@.len() && forall|i: int|
                0 <= i < cs@.len() ==> is_candidate(#[trigger] cs@[i], nodes@[i]),
            None => nodes@.len() <= 1,
        },
{
    if nodes.len() <= 1 {
        return None;
    }
    let mut r: Vec<SymbolCandidate> = Vec::new();
    let mut i: usize = 0;
    while i < nodes.len()
        invariant
            i <= nodes@.len(),
            r@.len() == i,
            forall|j: int| 0 <= j < i ==> is_candidate(#[trigger] r@[j], nodes@[j]),
        decreases nodes.len() - i,
    {
        r.push(
            SymbolCandidate {
                name: nodes[i].name.clone(),
                qualified_name: nodes[i].qualified_name.clone(),
                kind: nodes[i].kind.clone(),
                path: nodes[i].file_path.clone(),
                start_line: nodes[i].start_line,
                end_line: nodes[i].end_line,
            },
        );
        i = i + 1;
    }
    Some(r)
}

/// The node that a lookup goes by.
pub open spec fn lookup_node(nodes: Seq<NodeRecord>) -> Option<NodeRecord> {
    if nodes.len() > 0 {
        Some(nodes[0])
    } else {
        None
    }
}

/// Look a symbol up: `nodes` are those that bear its name, `rows` those of the code
/// table for its one node, or for its name where there is no node. Without the directory of
/// the code table nothing is found.
pub fn fetch_symbol_source(
    is_dir: bool,
    nodes: &Vec<NodeRecord>,
    rows: &Vec<TableRow>,
    symbol: &str,
) -> (r: SymbolLookup)
    requires
        is_dir && nodes@.len() <= 1 ==> range_sound(rows@, lookup_node(nodes@), symbol@),
    ensures
        !is_dir ==> r is NotFound,
        is_dir ==> match r {
            SymbolLookup::Ambiguous(cs) => nodes@.len() > 1 && cs@.len() == nodes@.len() && forall|
                i: int,
            |
                0 <= i < cs@.len() ==> is_candidate(#[trigger] cs@[i], nodes@[i]),
            SymbolLookup::Unique(src) => nodes@.len() <= 1 && chosen_row(
                rows@,
                nodes@.len() == 1,
                symbol@,
            ) is Some && is_source(
                src,
                rows@[chosen_row(rows@, nodes@.len() == 1, symbol@)->0],
                lookup_node(nodes@),
            ),
            SymbolLookup::NotFound => nodes@.len() <= 1 && chosen_row(
                rows@,
                nodes@.len() == 1,
                symbol@,
            ) is None,
        },
{
    if !is_dir {
        return SymbolLookup::NotFound;
    }
    match ambiguous_symbol(nodes) {
        Some(cs) => SymbolLookup::Ambiguous(cs),
        None => {
            let node = if nodes.len() > 0 {
                Some(&nodes[0])
            } else {
                None
            };
            match fetch_from_code_table(rows, node, symbol) {
                Some(src) => SymbolLookup::Unique(src),
                None => SymbolLookup::NotFound,
            }
        },
    }
}

/// How many lines a row spans beyond its first.
pub open spec fn row_span(row: TableRow) -> int {
    if row.end_line > row.start_line {
        row.end_line - row.start_line
    } else {
        0
    }
}

/// A row among those that have a symbol is the tightest: no other spans fewer lines,
/// and those before it span more.
pub open spec fn tightest(rows: Seq<TableRow>, i: int) -> bool {
    &&& 0 <= i < rows.len()
    &&& rows[i].symbol is Some
    &&& forall|j: int|
        0 <= j < rows.len() && (#[trigger] rows[j]).symbol is Some ==> row_span(rows[i])
            <= row_span(rows[j]) && (j < i ==> row_span(rows[i]) < row_span(rows[j]))
}

/// The source that a row holds as a whole.
pub open spec fn is_whole_row(src: SymbolSource, row: TableRow) -> bool {
    src.path@ == row.path@ && src.symbol@ == either(pieces::opt_text(row.symbol), None)
        && src.kind@ == either(pieces::opt_text(row.kind), None) && src.signature@ == either(
        pieces::opt_text(row.signature),
        None,
    ) && src.content@ == row.content@ && src.start_line == row.start_line && src.end_line
        == row.end_line
}

/// The symbol around a line, of the rows around it: the tightest one.
pub fn tightest_row(rows: &Vec<TableRow>) -> (r: Option<SymbolSource>)
    ensures
        match r {
            Some(src) => exists|i: int| #[trigger] tightest(rows@, i) && is_whole_row(src, rows@[i]),
            None => forall|i: int| 0 <= i < rows@.len() ==> (#[trigger] rows@[i]).symbol is None,
        },
{
    let mut best: Option<usize> = None;
    let mut least: u32 = 0;
    let mut i: usize = 0;
    while i < rows.len()
        invariant
            i <= rows@.len(),
            match best {
                Some(b) => b < i && rows@[b as int].symbol is Some && least == row_span(
                    rows@[b as int],
                ) && forall|j: int|
                    0 <= j < i && (#[trigger] rows@[j]).symbol is Some ==> row_span(
                        rows@[b as int],
                    ) <= row_span(rows@[j]) && (j < b ==> row_span(rows@[b as int]) < row_span(
                        rows@[j],
                    )),
                None => forall|j: int| 0 <= j < i ==> (#[trigger] rows@[j]).symbol is None,
            },
        decreases rows.len() - i,
    {
        if rows[i].symbol.is_some() {
            let span: u32 = if rows[i].end_line > rows[i].start_line {
                rows[i].end_line - rows[i].start_line
            } else {
                0
            };
            let better = match best {
                None => true,
                Some(_) => span < least,
            };
            if better {
                best = Some(i);
                least = span;
            }
        }
        i = i + 1;
    }
    match best {
        None => None,
        Some(b) => {
            let row = &rows[b];
            let src = SymbolSource {
                path: row.path.clone(),
                symbol: text_of(&row.symbol),
                kind: text_of(&row.kind),
                signature: text_of(&row.signature),
                content: row.content.clone(),
                start_line: row.start_line,
                end_line: row.end_line,
            };
            assert(tightest(rows@, b as int));
            assert(is_whole_row(src, rows@[b as int]));
            Some(src)
        },
    }
}

/// What the symbol at a place is read from.
#[derive(Debug, Clone, Copy, PartialEq, Eq, Structural)]
pub enum PlaceLookup {
    /// The rows around the place: there is no code graph.
    ByRows,
    /// The row of the node that the code graph has there.
    ByNode,
    /// The rows named like the file: the code graph has nothing there.
    ByName,
}

/// Decide how the symbol at a place is found.
pub fn place_lookup(has_graph: bool, has_node: bool) -> (r: PlaceLookup)
    ensures
        r == (if has_node {
            PlaceLookup::ByNode
        } else if has_graph {
            PlaceLookup::ByName
        } else {
            PlaceLookup::ByRows
        }),
{
    if has_node {
        PlaceLookup::ByNode
    } else if has_graph {
        PlaceLookup::ByName
    } else {
        PlaceLookup::ByRows
    }
}

/// The symbol at a place of a file, from the rows that [`place_lookup`] asks for. Without
/// the directory of the code table there is none.
pub fn fetch_symbol_at_location(
    is_dir: bool,
    has_graph: bool,
    node: Option<&NodeRecord>,
    rows: &Vec<TableRow>,
    file: &str,
) -> (r: Option<SymbolSource>)
    requires
        is_dir && (node is Some || has_graph) ==> range_sound(rows@, node_of(node), file@),
    ensures
        !is_dir ==> r is None,
        is_dir ==> match r {
            Some(src) => if node is None && !has_graph {
                exists|i: int| #[trigger] tightest(rows@, i) && is_whole_row(src, rows@[i])
            } else {
                chosen_row(rows@, node is Some, file@) is Some && is_source(
                    src,
                    rows@[chosen_row(rows@, node is Some, file@)->0],
                    node_of(node),
                )
            },
            None => if node is None && !has_graph {
                forall|i: int| 0 <= i < rows@.len() ==> (#[trigger] rows@[i]).symbol is None
            } else {
                chosen_row(rows@, node is Some, file@) is None
            },
        },
{
    if !is_dir {
        return None;
    }
    match place_lookup(has_graph, node.is_some()) {
        PlaceLookup::ByRows => tightest_row(rows),
        _ => fetch_from_code_table(rows, node, file),
    }
}

// ---------------------------------------------------------------------------
// Showing hits
// ---------------------------------------------------------------------------

/// Where a hit is: its file, and its lines where they are known.
pub open spec fn place_text(r: SearchResult) -> Seq<char> {
    if r.start_line > 0 {
        r.path@ + ":"@ + pieces::decimal(r.start_line as nat) + "-"@ + pieces::decimal(
            r.end_line as nat,
        )
    } else {
        r.path@
    }
}

pub fn show_place(r: &SearchResult) -> (t: String)
    ensures
        t@ == place_text(*r),
{
    let mut t = r.path.clone();
    if r.start_line > 0 {
        t.append(":");
        t.append(write_decimal(r.start_line as u64).as_str());
        t.append("-");
        t.append(write_decimal(r.end_line as u64).as_str());
    }
    t
}

/// A hit in Markdown: a symbol with its kind, its place, its signature and its code,
/// a passage with its place and its text.
pub open spec fn hit_text(r: SearchResult) -> Seq<char> {
    match r.symbol {
        Some(sym) => {
            let kind = match r.kind {
                Some(k) => k@,
                None => "symbol"@,
            };
            let head = "**"@ + sym@ + "** ("@ + kind + ") @ "@ + place_text(r);
            let signed = match r.signature {
                Some(s) if s@.len() > 0 => head + "\n_"@ + s@ + "_"@,
                _ => head,
            };
            signed + "\n\n```\n"@ + r.snippet@ + "\n```"@
        },
        None => "**"@ + place_text(r) + "**\n\n"@ + r.snippet@,
    }
}

pub fn show_hit(r: &SearchResult) -> (t: String)
    ensures
        t@ == hit_text(*r),
{
    let mut t = "**".to_owned();
    match &r.symbol {
        Some(sym) => {
            t.append(sym.as_str());
            t.append("** (");
            match &r.kind {
                Some(k) => {
                    t.append(k.as_str());
                },
                None => {
                    t.append("symbol");
                },
            }
            t.append(") @ ");
            t.append(show_place(r).as_str());
            match &r.signature {
                Some(s) => {
                    if !s.as_str().is_empty() {
                        t.append("\n_");
                        t.append(s.as_str());
                        t.append("_");
                    }
                },
                None => {},
            }
            t.append("\n\n```\n");
            t.append(r.snippet.as_str());
            t.append("\n```");
        },
        None => {
            t.append(show_place(r).as_str());
            t.append("**\n\n");
            t.append(r.snippet.as_str());
        },
    }
    t
}

/// What is said where a query found nothing.
pub open spec fn no_results(query: Seq<char>) -> Seq<char> {
    "No results for '"@ + query + "'."@
}

/// The hits of a search in Markdown, with a rule between neighbours.
pub fn format_results(results: &Vec<SearchResult>, query: &str) -> (t: String)
    ensures
        t@ == (if results@.len() == 0 {
            no_results(query@)
        } else {
            pieces::join(results@.map_values(|r: SearchResult| hit_text(r)), "\n\n---\n\n"@)
        }),
{
    if results.len() == 0 {
        let mut t = "No results for '".to_owned();
        t.append(query);
        t.append("'.");
        return t;
    }
    let mut parts: Vec<String> = Vec::new();
    let ghost want = results@.map_values(|r: SearchResult| hit_text(r));
    let mut i: usize = 0;
    while i < results.len()
        invariant
            i <= results@.len(),
            want == results@.map_values(|r: SearchResult| hit_text(r)),
            pieces::texts(parts@) == want.take(i as int),
        decreases results.len() - i,
    {
        let ghost before = pieces::texts(parts@);
        parts.push(show_hit(&results[i]));
        proof {
            assert(pieces::texts(parts@) =~= before.push(want[i as int]));
            assert(want.take(i + 1) =~= want.take(i as int).push(want[i as int]));
        }
        i = i + 1;
    }
    assert(want.take(results@.len() as int) =~= want);
    join_texts(&parts, "\n\n---\n\n")
}

// ---------------------------------------------------------------------------
// Embedding a table
// ---------------------------------------------------------------------------

/// Whether vectors can be put into a table: every batch of it has a `content` column,
/// and the first vector has the dimension that the model promises.
pub fn check_embedding(
    table_name: &str,
    has_content: &Vec<bool>,
    first_dim: Option<usize>,
    dim: usize,
) -> (r: Result<(), String>)
    ensures
        match r {
            Ok(_) => !has_content@.contains(false) && (first_dim matches Some(n) ==> n == dim),
            Err(e) => if has_content@.contains(false) {
                e@ == "table `"@ + table_name@ + "` has no `content` column to embed"@
            } else {
                first_dim is Some && first_dim->0 != dim && e@ == "embedding dim mismatch: got "@
                    + pieces::decimal(first_dim->0 as nat) + " expected "@ + pieces::decimal(
                    dim as nat,
                )
            },
        },
{
    let mut i: usize = 0;
    while i < has_content.len()
        invariant
            i <= has_content@.len(),
            forall|j: int| 0 <= j < i ==> #[trigger] has_content@[j],
        decreases has_content.len() - i,
    {
        if !has_content[i] {
            assert(has_content@[i as int] == false);
            let mut e = "table `".to_owned();
            e.append(table_name);
            e.append("` has no `content` column to embed");
            return Err(e);
        }
        i = i + 1;
    }
    match first_dim {
        Some(n) => {
            if n != dim {
                let mut e = "embedding dim mismatch: got ".to_owned();
                e.append(write_decimal(n as u64).as_str());
                e.append(" expected ");
                e.append(write_decimal(dim as u64).as_str());
                return Err(e);
            }
        },
        None => {},
    }
    Ok(())
}

/// How many rows the first batches have together.
pub open spec fn total(counts: Seq<usize>) -> nat
    decreases counts.len(),
{
    if counts.len() == 0 {
        0
    } else {
        total(counts.drop_last()) + counts.last() as nat
    }
}

/// Which vectors go to which batch of a table: they were made for all rows at once, in
/// the order of the batches.
pub fn batch_ranges(counts: &Vec<usize>) -> (r: Vec<(usize, usize)>)
    requires
        total(counts@) <= usize::MAX,
    ensures
        r@.len() == counts@.len(),
        forall|i: int|
            0 <= i < r@.len() ==> (#[trigger] r@[i]).0 == total(counts@.take(i)) && r@[i].1 == total(
                counts@.take(i + 1),
            ),
{
    let mut r: Vec<(usize, usize)> = Vec::new();
    let mut at: usize = 0;
    let mut i: usize = 0;
    assert(counts@.take(0) =~= seq![]);
    while i < counts.len()
        invariant
            i <= counts@.len(),
            total(counts@) <= usize::MAX,
            at == total(counts@.take(i as int)),
            r@.len() == i,
            forall|j: int|
                0 <= j < i ==> (#[trigger] r@[j]).0 == total(counts@.take(j)) && r@[j].1 == total(
                    counts@.take(j + 1),
                ),
        decreases counts.len() - i,
    {
        proof {
            assert(counts@.take(i + 1).drop_last() =~= counts@.take(i as int));
            lemma_total_grows(counts@, i + 1);
        }
        let next: usize = at + counts[i];
        r.push((at, next));
        at = next;
        i = i + 1;
    }
    r
}

proof fn lemma_total_grows(counts: Seq<usize>, i: int)
    requires
        0 <= i <= counts.len(),
    ensures
        total(counts.take(i)) <= total(counts),
    decreases counts.len() - i,
{
    if i < counts.len() {
        lemma_total_grows(counts, i + 1);
        assert(counts.take(i + 1).drop_last() =~= counts.take(i));
    } else {
        assert(counts.take(i) =~= counts);
    }
}

// ---------------------------------------------------------------------------
// One kind of symbol
// ---------------------------------------------------------------------------

/// Whether a result is of a kind that is asked for.
pub open spec fn is_of_kind(r: SearchResult, kind: Option<Seq<char>>) -> bool {
    match kind {
        Some(k) => pieces::opt_text(r.kind) == Some(k),
        None => true,
    }
}

/// The results of a kind, in order.
pub open spec fn of_kind(rs: Seq<SearchResult>, kind: Option<Seq<char>>) -> Seq<SearchResult>
    decreases rs.len(),
{
    if rs.len() == 0 {
        seq![]
    } else if is_of_kind(rs.last(), kind) {
        of_kind(rs.drop_last(), kind).push(rs.last())
    } else {
        of_kind(rs.drop_last(), kind)
    }
}

/// Keep the results of a kind, where one is asked for.
pub fn keep_kind(results: Vec<SearchResult>, kind: Option<&str>) -> (r: Vec<SearchResult>)
    ensures
        r@ == of_kind(results@, pieces::opt_str(kind)),
{
    let ghost all = results@;
    let ghost k = pieces::opt_str(kind);
    let mut left = results;
    let mut kept: Vec<SearchResult> = Vec::new();
    let ghost mut n: int = all.len() as int;
    assert(all.take(n) =~= all);
    assert(of_kind(all, k) =~= of_kind(all.take(n), k) + turned(kept@));
    while left.len() > 0
        invariant
            0 <= n <= all.len(),
            left@ == all.take(n),
            k == pieces::opt_str(kind),
            of_kind(all, k) == of_kind(all.take(n), k) + turned(kept@),
        decreases left.len(),
    {
        let x = match left.pop() {
            Some(x) => x,
            None => {
                return kept;
            },
        };
        proof {
            assert(all.take(n).drop_last() =~= all.take(n - 1));
            assert(x == all[n - 1]);
        }
        let wanted = match kind {
            Some(t) => match &x.kind {
                Some(u) => same_text(u.as_str(), t),
                None => false,
            },
            None => true,
        };
        let ghost before = kept@;
        if wanted {
            kept.push(x);
            proof {
                assert(turned(kept@) =~= seq![x] + turned(before));
                assert(of_kind(all.take(n), k) + turned(before) =~= of_kind(all.take(n - 1), k)
                    + turned(kept@));
            }
        }
        proof {
            n = n - 1;
        }
    }
    let mut r: Vec<SearchResult> = Vec::new();
    assert(of_kind(all, k) =~= turned(kept@));
    assert(turned(kept@) =~= r@ + turned(kept@));
    while kept.len() > 0
        invariant
            of_kind(all, k) == r@ + turned(kept@),
        decreases kept.len(),
    {
        let ghost before = kept@;
        let x = match kept.pop() {
            Some(x) => x,
            None => {
                return r;
            },
        };
        proof {
            assert(turned(before) =~= seq![x] + turned(kept@));
            assert(r@ + turned(before) =~= r@.push(x) + turned(kept@));
        }
        r.push(x);
    }
    assert(turned(kept@) =~= seq![]);
    assert(r@ =~= of_kind(all, k));
    r
}

spec fn turned(rs: Seq<SearchResult>) -> Seq<SearchResult> {
    rs.reverse()
}

// ---------------------------------------------------------------------------
// What is recorded of a table's vectors
// ---------------------------------------------------------------------------

/// What is recorded of a table, with the model and the dimension of its vectors.
pub open spec fn stamped(v: JsonView, model_id: Seq<char>, dim: u32) -> JsonView {
    match v {
        JsonView::Object(ms) => JsonView::Object(
            json::with_member(
                json::with_member(ms, "embedding_model"@, JsonView::Text(model_id)),
                "embedding_dim"@,
                json::number_tree(dim),
            ),
        ),
        _ => v,
    }
}

/// What a file says as JSON; where it is missing or no JSON, an object without members.
pub open spec fn recorded(file: Option<Seq<char>>) -> JsonView {
    match file {
        Some(s) => match json::json_read(s) {
            Ok(v) => v,
            Err(_) => JsonView::Object(seq![]),
        },
        None => JsonView::Object(seq![]),
    }
}

/// Record the model and the dimension of a table's vectors in what a value says.
pub fn stamp_value(value: Json, model_id: &str, dim: u32) -> (r: Json)
    ensures
        r@ == stamped(value@, model_id@, dim),
{
    match value {
        Json::Object(mut v) => {
            set_member(&mut v, "embedding_model", Json::Text(model_id.to_owned()));
            set_member(&mut v, "embedding_dim", number(dim));
            Json::Object(v)
        },
        other => other,
    }
}

/// Record the model and the dimension of a table's vectors; whatever else is recorded of
/// the table stays.
pub fn stamp_embedding_metadata(file: Option<&str>, model_id: &str, dim: u32) -> (r: Json)
    ensures
        r@ == stamped(recorded(pieces::opt_str(file)), model_id@, dim),
{
    let none: Vec<(String, Json)> = Vec::new();
    assert(json::members(none@) =~= seq![]);
    let value = match file {
        Some(s) => match read_json(s) {
            Ok(j) => j,
            Err(e) => Json::Object(none),
        },
        None => Json::Object(none),
    };
    stamp_value(value, model_id, dim)
}

/// The model and the dimension that were recorded are found again, and nothing else that
/// was recorded is lost.
pub proof fn recorded_vectors_are_found(v: JsonView, model_id: Seq<char>, dim: u32, other: Seq<char>)
    requires
        v is Object,
    ensures
        json::member(stamped(v, model_id, dim), "embedding_model"@) == Some(
            JsonView::Text(model_id),
        ),
        json::member(stamped(v, model_id, dim), "embedding_dim"@) == Some(json::number_tree(dim)),
        other != "embedding_model"@ && other != "embedding_dim"@ ==> json::member(
            stamped(v, model_id, dim),
            other,
        ) == json::member(v, other),
{
    let ms = v->Object_0;
    let m = "embedding_model"@;
    let d = "embedding_dim"@;
    let once = json::with_member(ms, m, JsonView::Text(model_id));
    reveal_strlit("embedding_model");
    reveal_strlit("embedding_dim");
    assert(m.len() == 15 && d.len() == 13);
    json::set_members_are_found(ms, m, JsonView::Text(model_id), other);
    json::set_members_are_found(once, d, json::number_tree(dim), other);
    json::set_members_are_found(once, d, json::number_tree(dim), m);
}

/// What is recorded of a table of documents that was just made.
pub fn new_metadata(doc_count: u64, chunk_count: u64, project: &str, created_at: &str) -> (r:
    LanceMetadata)
    ensures
        pieces::opt_text(r.table_name) == Some("docs"@),
        r.document_count == Some(doc_count),
        r.chunk_count == Some(chunk_count),
        r.fts_enabled == Some(true),
        r.indexed_paths is Some,
        pieces::texts(r.indexed_paths->0@) == seq![project@],
        pieces::opt_text(r.created_at) == Some(created_at@),
        r.embedding_model is None,
        r.embedding_dim is None,
{
    let mut paths: Vec<String> = Vec::new();
    paths.push(project.to_owned());
    assert(pieces::texts(paths@) =~= seq![project@]);
    LanceMetadata {
        table_name: Some("docs".to_owned()),
        document_count: Some(doc_count),
        chunk_count: Some(chunk_count),
        fts_enabled: Some(true),
        indexed_paths: Some(paths),
        created_at: Some(created_at.to_owned()),
        embedding_model: None,
        embedding_dim: None,
    }
}

// ---------------------------------------------------------------------------
// What rows and symbols come to
// ---------------------------------------------------------------------------

/// A range that begins before the chunk gives as many lines as it has, from the first line of
/// the chunk on.
pub proof fn a_range_before_a_chunk_begins_with_it(ls: Seq<Seq<char>>, from: u32, a: u32, b: u32)
    requires
        forall|i: int| 0 <= i < ls.len() ==> pieces::is_line(#[trigger] ls[i]),
        ls.len() > 0 && ls.last().len() > 0,
        0 < a < from,
        a <= b,
    ensures
        sliced(pieces::join(ls, "\n"@), from, a, b) == pieces::join(
            ls.take(
                if b - a + 1 < ls.len() {
                    b - a + 1
                } else {
                    ls.len() as int
                },
            ),
            "\n"@,
        ),
{
    pieces::joined_lines_are_read_back(ls);
    let n = if b - a + 1 < ls.len() {
        b - a + 1
    } else {
        ls.len() as int
    };
    assert(ls.subrange(0, n) =~= ls.take(n));
    let content = pieces::join(ls, "\n"@);
    assert(line_range(content, 0, b - a + 1) =~= ls.take(n));
}

/// A hit is its row: the file without the number of the chunk, the beginning of the content
/// as far as hits show it, all of it where it is short, and the lines and bytes of the row.
/// Of code the symbol is known, of documentation it is not.
pub proof fn hits_are_their_rows(r: SearchResult, row: TableRow, is_code: bool)
    requires
        is_hit(r, row, is_code),
    ensures
        !r.path@.contains('#'),
        row.path@ == r.path@ || exists|t: Seq<char>| row.path@ == #[trigger] (r.path@ + seq!['#'] + t),
        r.snippet@ == row.content@.take(r.snippet@.len() as int),
        r.snippet@.len() <= row.content@.len(),
        row.content@.len() <= 400 ==> r.snippet@ == row.content@,
        row.content@.len() <= 600 && is_code ==> r.snippet@ == row.content@,
        row.content@.len() >= 400 && !is_code ==> r.snippet@.len() == 400,
        row.content@.len() >= 600 && is_code ==> r.snippet@.len() == 600,
        r.start_line == row.start_line && r.end_line == row.end_line,
        r.start_byte == row.start_byte && r.end_byte == row.end_byte,
        is_code ==> (row.symbol matches Some(s) ==> r.symbol is Some && r.symbol->0@ == s@),
        is_code ==> (row.kind matches Some(s) ==> r.kind is Some && r.kind->0@ == s@),
        is_code ==> (row.signature matches Some(s) ==> r.signature is Some && r.signature->0@ == s@),
        !is_code || row.symbol is None ==> r.symbol is None,
        !is_code || row.kind is None ==> r.kind is None,
        !is_code || row.signature is None ==> r.signature is None,
{
    github::cut_texts_are_whole(row.path@, '#');
    if r.path@.contains('#') {
        let i = choose|i: int| 0 <= i < r.path@.len() && r.path@[i] == '#';
        assert(github::before(row.path@, '#')[i] != '#');
    }
    match github::after(row.path@, '#') {
        Some(t) => {
            assert(row.path@ == r.path@ + seq!['#'] + t);
        },
        None => {},
    }
    assert(row.content@.take(row.content@.len() as int) =~= row.content@);
}

/// Every row that an index gave is a hit, in its order, and an index is asked wherever it is
/// there.
pub proof fn every_row_is_found(
    r: Result<Vec<SearchResult>, SempkgError>,
    dir: Seq<char>,
    is_dir: bool,
    rows: Seq<TableRow>,
    is_code: bool,
    i: int,
)
    requires
        is_found(r, dir, is_dir, rows, is_code),
        0 <= i < rows.len(),
    ensures
        is_dir ==> r is Ok && r->Ok_0@.len() == rows.len() && is_hit(r->Ok_0@[i], rows[i], is_code),
        !is_dir ==> r is Err,
{
    if is_dir {
        let v = r->Ok_0;
        assert(is_hit(v@[i], rows[i], is_code));
    }
}

/// A text is quoted character by character: a quote is doubled, anything else stays.
pub proof fn quotes_are_doubled(a: Seq<char>, b: Seq<char>, c: char)
    ensures
        quoted(a + b) == quoted(a) + quoted(b),
        c == '\'' ==> quoted(seq![c]) == seq![c, c],
        c != '\'' ==> quoted(seq![c]) == seq![c],
        quoted(Seq::empty()) == Seq::<char>::empty(),
{
    reveal_strlit("'");
    reveal_strlit("''");
    assert("'"@ =~= seq!['\'']);
    assert("''"@ =~= seq!['\'', '\'']);
    pieces::characters_are_replaced_one_by_one(a, b, '\'', c, "''"@);
}

/// With a node, the source of a symbol is taken from the first row; by its name, from the
/// first row that has the symbol.
pub proof fn the_first_row_of_a_symbol_is_taken(rows: Seq<TableRow>, hint: Seq<char>, i: int)
    requires
        0 <= i < rows.len(),
    ensures
        chosen_row(rows, true, hint) == Some(0int),
        hint.len() > 0 && (rows[i].symbol matches Some(s) && s@ == hint) && (forall|j: int|
            0 <= j < i ==> ((#[trigger] rows[j]).symbol matches Some(s) ==> s@ != hint))
            ==> chosen_row(rows, false, hint) == Some(i),
    decreases rows.len(),
{
    let t = rows.drop_last();
    if t.len() > 0 {
        if i < t.len() {
            the_first_row_of_a_symbol_is_taken(t, hint, i);
            assert(t[i] == rows[i]);
            assert(forall|j: int| 0 <= j < t.len() ==> #[trigger] t[j] == rows[j]);
        } else {
            the_first_row_of_a_symbol_is_taken(t, hint, 0);
            if hint.len() > 0 && (forall|j: int|
                0 <= j < i ==> ((#[trigger] rows[j]).symbol matches Some(s) ==> s@ != hint)) {
                assert forall|j: int| 0 <= j < t.len() implies ((#[trigger] t[j]).symbol matches Some(
                    s,
                ) ==> s@ != hint) by {
                    assert(t[j] == rows[j]);
                }
                lemma_no_row(t, hint);
            }
        }
    } else {
        assert(chosen_row(t, true, hint) is None);
        assert(chosen_row(t, false, hint) is None);
    }
}

proof fn lemma_no_row(rows: Seq<TableRow>, hint: Seq<char>)
    requires
        hint.len() > 0,
        forall|j: int|
            0 <= j < rows.len() ==> ((#[trigger] rows[j]).symbol matches Some(s) ==> s@ != hint),
    ensures
        chosen_row(rows, false, hint) is None,
    decreases rows.len(),
{
    if rows.len() > 0 {
        let t = rows.drop_last();
        assert forall|j: int| 0 <= j < t.len() implies ((#[trigger] t[j]).symbol matches Some(s) ==> s@
            != hint) by {
            assert(t[j] == rows[j]);
        }
        lemma_no_row(t, hint);
        assert(rows[rows.len() - 1] == rows.last());
    }
}

/// Where no row has the symbol there is no source of it.
pub proof fn no_row_gives_no_source(rows: Seq<TableRow>, hint: Seq<char>)
    requires
        hint.len() > 0,
        forall|j: int|
            0 <= j < rows.len() ==> ((#[trigger] rows[j]).symbol matches Some(s) ==> s@ != hint),
    ensures
        chosen_row(rows, false, hint) is None,
        chosen_row(Seq::empty(), true, hint) is None,
{
    lemma_no_row(rows, hint);
}

/// The source of a symbol is that of its node: the name, the kind and the lines of the node,
/// and of the content of its row the lines that the node has.
pub proof fn a_source_is_that_of_its_node(src: SymbolSource, row: TableRow, node: NodeRecord)
    requires
        is_source(src, row, Some(node)),
    ensures
        src.path@ == row.path@,
        src.symbol@ == node.name@,
        src.kind@ == node.kind@,
        src.start_line == node.start_line,
        src.end_line == node.end_line,
        src.content@ == sliced(row.content@, row.start_line, node.start_line, node.end_line),
        node.signature matches Some(s) ==> src.signature@ == s@,
        node.signature is None ==> (row.signature matches Some(s) ==> src.signature@ == s@),
{
}

/// Without a node the source of a symbol is that of its row.
pub proof fn a_source_is_that_of_its_row(src: SymbolSource, row: TableRow)
    requires
        is_source(src, row, None),
    ensures
        src.path@ == row.path@,
        row.symbol matches Some(s) ==> src.symbol@ == s@,
        row.kind matches Some(s) ==> src.kind@ == s@,
        row.signature matches Some(s) ==> src.signature@ == s@,
        src.start_line == row.start_line,
        src.end_line == row.end_line,
        src.content@ == sliced(row.content@, row.start_line, row.start_line, row.end_line),
{
}

proof fn lemma_tightest_row(rows: Seq<TableRow>, n: int) -> (i: int)
    requires
        0 <= n <= rows.len(),
        exists|k: int| 0 <= k < n && (#[trigger] rows[k]).symbol is Some,
    ensures
        0 <= i < n,
        rows[i].symbol is Some,
        forall|j: int|
            0 <= j < n && (#[trigger] rows[j]).symbol is Some ==> row_span(rows[i]) <= row_span(
                rows[j],
            ) && (j < i ==> row_span(rows[i]) < row_span(rows[j])),
    decreases n,
{
    let k = choose|k: int| 0 <= k < n && (#[trigger] rows[k]).symbol is Some;
    if exists|k: int| 0 <= k < n - 1 && (#[trigger] rows[k]).symbol is Some {
        let i = lemma_tightest_row(rows, n - 1);
        if rows[n - 1].symbol is Some && row_span(rows[n - 1]) < row_span(rows[i]) {
            n - 1
        } else {
            i
        }
    } else {
        assert(k == n - 1);
        n - 1
    }
}

/// Of the rows around a line that have a symbol one is taken, and none of them has fewer
/// lines.
pub proof fn the_tightest_symbol_is_taken(rows: Seq<TableRow>, k: int, i: int)
    requires
        0 <= k < rows.len(),
        rows[k].symbol is Some,
        rows[k].start_line <= rows[k].end_line,
    ensures
        exists|i: int| #[trigger] tightest(rows, i),
        tightest(rows, i) ==> 0 <= i < rows.len() && rows[i].symbol is Some && rows[i].end_line
            - rows[i].start_line <= rows[k].end_line - rows[k].start_line,
{
    let best = lemma_tightest_row(rows, rows.len() as int);
    assert(tightest(rows, best));
}

/// Every vector goes to the batch of its row: the ranges of the batches have as many vectors
/// as the batches have rows, and follow one another.
pub proof fn vectors_go_to_their_rows(counts: Seq<usize>, i: int)
    requires
        0 <= i < counts.len(),
    ensures
        total(counts.take(0)) == 0,
        total(counts.take(i + 1)) - total(counts.take(i)) == counts[i],
        total(counts.take(counts.len() as int)) == total(counts),
{
    let t = counts.take(i + 1);
    assert(t.drop_last() =~= counts.take(i));
    assert(t.last() == counts[i]);
    assert(counts.take(counts.len() as int) =~= counts);
    assert(counts.take(0).len() == 0);
}

/// The results of a kind are kept one by one, in their order: every one of that kind, and all
/// where no kind is asked for.
pub proof fn results_of_a_kind_are_kept(
    a: Seq<SearchResult>,
    b: Seq<SearchResult>,
    r: SearchResult,
    kind: Seq<char>,
)
    ensures
        of_kind(a + b, Some(kind)) == of_kind(a, Some(kind)) + of_kind(b, Some(kind)),
        of_kind(a, None) == a,
        (r.kind matches Some(k) && k@ == kind) ==> of_kind(seq![r], Some(kind)) == seq![r],
        !(r.kind matches Some(k) && k@ == kind) ==> of_kind(seq![r], Some(kind)) == Seq::<
            SearchResult,
        >::empty(),
    decreases a.len() + b.len(),
{
    let some = Some(kind);
    let one = seq![r];
    assert(one.drop_last() =~= Seq::<SearchResult>::empty());
    assert(Seq::<SearchResult>::empty().push(r) =~= one);
    if a.len() > 0 {
        results_of_a_kind_are_kept(a.drop_last(), Seq::empty(), r, kind);
        assert(a.drop_last().push(a.last()) =~= a);
    }
    if b.len() == 0 {
        assert(a + b =~= a);
        assert(of_kind(a, some) + of_kind(b, some) =~= of_kind(a, some));
    } else {
        let t = b.drop_last();
        results_of_a_kind_are_kept(a, t, r, kind);
        assert((a + b).drop_last() =~= a + t);
        assert((of_kind(a, some) + of_kind(t, some)).push(b.last()) =~= of_kind(a, some) + of_kind(
            t,
            some,
        ).push(b.last()));
    }
}

/// Every node of an ambiguous name is a candidate, with its names, its kind, its file and its
/// lines.
pub proof fn candidates_are_their_nodes(c: SymbolCandidate, n: NodeRecord)
    requires
        is_candidate(c, n),
    ensures
        c.name@ == n.name@,
        c.qualified_name@ == n.qualified_name@,
        c.kind@ == n.kind@,
        c.path@ == n.file_path@,
        c.start_line == n.start_line,
        c.end_line == n.end_line,
{
}

/// The source that a row holds as a whole is the row.
pub proof fn whole_rows_are_shown(src: SymbolSource, row: TableRow)
    requires
        is_whole_row(src, row),
    ensures
        src.content@ == row.content@,
        src.path@ == row.path@,
        src.start_line == row.start_line,
        src.end_line == row.end_line,
        row.symbol matches Some(s) ==> src.symbol@ == s@,
        row.kind matches Some(s) ==> src.kind@ == s@,
        row.signature matches Some(s) ==> src.signature@ == s@,
{
}

/// A hit says where it is: the file, and the lines where they are known.
pub proof fn hits_say_where_they_are(r: SearchResult)
    ensures
        r.start_line > 0 ==> place_text(r) == r.path@ + ":"@ + pieces::decimal(r.start_line as nat)
            + "-"@ + pieces::decimal(r.end_line as nat),
        r.start_line == 0 ==> place_text(r) == r.path@,
        text::starts_with(place_text(r), r.path@),
{
    assert(place_text(r).subrange(0, r.path@.len() as int) =~= r.path@);
}

/// What a hit has found is shown in full, behind the name of its symbol or its place.
pub proof fn the_snippet_of_a_hit_is_shown(r: SearchResult)
    ensures
        r.symbol is Some ==> text::ends_with(hit_text(r), "\n\n```\n"@ + r.snippet@ + "\n```"@),
        r.symbol is None ==> hit_text(r) == "**"@ + place_text(r) + "**\n\n"@ + r.snippet@,
{
    if r.symbol is Some {
        let t = hit_text(r);
        let tail = "\n\n```\n"@ + r.snippet@ + "\n```"@;
        assert(t.subrange(t.len() - tail.len(), t.len() as int) =~= tail);
    }
}

/// A lookup goes by the first node, where there is one.
pub proof fn lookups_go_by_the_first_node(nodes: Seq<NodeRecord>)
    ensures
        nodes.len() > 0 ==> lookup_node(nodes) == Some(nodes[0]),
        nodes.len() == 0 ==> lookup_node(nodes) is None,
{
}

/// The lines of a symbol can be cut out wherever its node ends no earlier than it begins, and
/// wherever a line is not known.
pub proof fn sound_nodes_can_be_cut_out(rows: Seq<TableRow>, node: NodeRecord, hint: Seq<char>)
    ensures
        node.start_line <= node.end_line ==> range_sound(rows, Some(node), hint),
        node.start_line == 0 || node.end_line == 0 ==> range_sound(rows, Some(node), hint),
{
}

/// The signature of a hit is shown where there is one.
pub proof fn signatures_are_shown(r: SearchResult, symbol: String, kind: String)
    requires
        r.symbol == Some(symbol),
        r.kind == Some(kind),
    ensures
        ({
            let head = "**"@ + symbol@ + "** ("@ + kind@ + ") @ "@ + place_text(r);
            let code = "\n\n```\n"@ + r.snippet@ + "\n```"@;
            &&& r.signature is None ==> hit_text(r) == head + code
            &&& r.signature matches Some(s) ==> (s@.len() == 0 ==> hit_text(r) == head + code)
            &&& r.signature matches Some(s) ==> (s@.len() > 0 ==> hit_text(r) == head + "\n_"@ + s@
                + "_"@ + code)
        }),
{
    let code = "\n\n```\n"@ + r.snippet@ + "\n```"@;
    let head = "**"@ + symbol@ + "** ("@ + kind@ + ") @ "@ + place_text(r);
    assert(head + "\n\n```\n"@ + r.snippet@ + "\n```"@ =~= head + code);
    match r.signature {
        Some(s) => {
            let signed = head + "\n_"@ + s@ + "_"@;
            assert(signed + "\n\n```\n"@ + r.snippet@ + "\n```"@ =~= signed + code);
        },
        None => {},
    }
}

} // verus!
