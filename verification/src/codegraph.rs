//! The code graph of a package: where its database is, what is asked of it, and what
//! is made of what the codegraph tool and its database answer.

use vstd::prelude::*;

use crate::paths;
use crate::paths::join_path;
use crate::pieces;
use crate::pieces::{copy_opt, split_class};
use crate::rank;
use crate::rank::order_rising;
use crate::text;
use crate::text::{chars_of, same_text, string_of, trim_text, CharClass};

verus! {

/// Where the database of a project's graph is.
pub open spec fn graph_db(project: Seq<char>) -> Seq<char> {
    paths::joined(paths::joined(project, ".codegraph"@), "codegraph.db"@)
}

pub fn db_path(project_path: &str) -> (r: String)
    ensures
        r@ == graph_db(project_path@),
{
    join_path(join_path(project_path, ".codegraph").as_str(), "codegraph.db")
}

/// The arguments that make the tool index a project.
pub fn init_and_index(path: &str) -> (r: Vec<String>)
    ensures
        pieces::texts(r@) == seq!["init"@, "--index"@, path@],
{
    let mut r: Vec<String> = Vec::new();
    r.push("init".to_owned());
    r.push("--index".to_owned());
    r.push(path.to_owned());
    assert(pieces::texts(r@) =~= seq!["init"@, "--index"@, path@]);
    r
}

/// The arguments that make the tool bring a project's index up to date.
pub fn sync(path: &str) -> (r: Vec<String>)
    ensures
        pieces::texts(r@) == seq!["sync"@, path@],
{
    let mut r: Vec<String> = Vec::new();
    r.push("sync".to_owned());
    r.push(path.to_owned());
    assert(pieces::texts(r@) =~= seq!["sync"@, path@]);
    r
}

/// The first of two outputs that has more than white space, without the white space
/// around it.
pub open spec fn first_output(a: Seq<char>, b: Seq<char>) -> Seq<char> {
    let x = text::trim(a, CharClass::Space);
    if x.len() > 0 {
        x
    } else {
        text::trim(b, CharClass::Space)
    }
}

/// What a finished tool said: on success what it printed, else what it complained of.
/// Where it used only the other channel, what it said there.
pub fn tool_output(success: bool, stdout: &str, stderr: &str) -> (r: Result<String, String>)
    ensures
        match r {
            Ok(t) => success && t@ == first_output(stdout@, stderr@),
            Err(t) => !success && t@ == first_output(stderr@, stdout@),
        },
{
    let out = trim_text(stdout);
    let err = trim_text(stderr);
    if success {
        if out.as_str().is_empty() {
            Ok(err)
        } else {
            Ok(out)
        }
    } else if err.as_str().is_empty() {
        Err(out)
    } else {
        Err(err)
    }
}

/// The last word among pieces.
pub open spec fn last_piece(ps: Seq<Seq<char>>) -> Seq<char>
    decreases ps.len(),
{
    if ps.len() == 0 {
        "unknown"@
    } else if ps.last().len() > 0 {
        ps.last()
    } else {
        last_piece(ps.drop_last())
    }
}

/// The version that the tool prints: its last word, `unknown` where it prints none.
pub fn version(stdout: &str) -> (r: String)
    ensures
        r@ == last_piece(pieces::split(stdout@, CharClass::Space)),
{
    let cs = chars_of(stdout);
    let ps = split_class(cs.as_slice(), CharClass::Space);
    let ghost all = pieces::rows(ps@);
    let mut i: usize = ps.len();
    assert(all.take(ps@.len() as int) =~= all);
    while i > 0
        invariant
            i <= ps@.len(),
            all == pieces::rows(ps@),
            all == pieces::split(stdout@, CharClass::Space),
            last_piece(all) == last_piece(all.take(i as int)),
        decreases i,
    {
        assert(all.take(i as int).last() == ps@[i - 1]@);
        assert(all.take(i as int).drop_last() =~= all.take(i - 1));
        if ps[i - 1].len() > 0 {
            return string_of(ps[i - 1].as_slice());
        }
        i = i - 1;
    }
    "unknown".to_owned()
}

/// A node of the graph.
#[derive(Debug, Clone)]
pub struct NodeRecord {
    pub name: String,
    pub qualified_name: String,
    pub file_path: String,
    pub start_line: u32,
    pub end_line: u32,
    pub kind: String,
    pub signature: Option<String>,
    pub docstring: Option<String>,
}

/// A row of the database's node table.
#[derive(Debug, Clone)]
pub struct NodeRow {
    pub name: String,
    pub qualified_name: Option<String>,
    pub file_path: Option<String>,
    pub start_line: Option<i64>,
    pub end_line: Option<i64>,
    pub kind: Option<String>,
    pub signature: Option<String>,
    pub docstring: Option<String>,
}

fn text_or_empty(t: &Option<String>) -> (r: String)
    ensures
        r@ == text_in(*t),
{
    match t {
        Some(s) => s.clone(),
        None => {
            let r = String::new();
            assert(r@ =~= seq![]);
            r
        },
    }
}

/// A text of a row, empty where the row leaves it out.
pub open spec fn text_in(t: Option<String>) -> Seq<char> {
    match t {
        Some(s) => s@,
        None => seq![],
    }
}

/// A line of a row, 0 where the row leaves it out.
pub open spec fn line_in(n: Option<i64>) -> u32 {
    match n {
        Some(x) => x as u32,
        None => 0u32,
    }
}

fn line_or_zero(n: Option<i64>) -> (r: u32)
    ensures
        r == line_in(n),
{
    match n {
        Some(x) => {
            #[verifier::truncate]
            let r: u32 = x as u32;
            r
        },
        None => 0,
    }
}

/// A node is what a row says: what the row leaves out is empty, or line 0.
pub open spec fn is_node(n: NodeRecord, row: NodeRow) -> bool {
    &&& n.name@ == row.name@
    &&& n.qualified_name@ == text_in(row.qualified_name)
    &&& n.file_path@ == text_in(row.file_path)
    &&& n.start_line == line_in(row.start_line)
    &&& n.end_line == line_in(row.end_line)
    &&& n.kind@ == text_in(row.kind)
    &&& pieces::opt_text(n.signature) == pieces::opt_text(row.signature)
    &&& pieces::opt_text(n.docstring) == pieces::opt_text(row.docstring)
}

/// A node from its row.
pub fn row_to_node(row: &NodeRow) -> (r: NodeRecord)
    ensures
        is_node(r, *row),
{
    NodeRecord {
        name: row.name.clone(),
        qualified_name: text_or_empty(&row.qualified_name),
        file_path: text_or_empty(&row.file_path),
        start_line: line_or_zero(row.start_line),
        end_line: line_or_zero(row.end_line),
        kind: text_or_empty(&row.kind),
        signature: copy_opt(&row.signature),
        docstring: copy_opt(&row.docstring),
    }
}

// ---------------------------------------------------------------------------
// The nodes of a name
// ---------------------------------------------------------------------------

/// What asks the database for the nodes of a name.
pub const SYMBOL_QUERY: &'static str = "SELECT name, qualified_name, file_path, start_line, end_line, kind, signature, docstring FROM nodes WHERE qualified_name = ?1 OR name = ?1";

/// A symbol is the qualified name of a node.
pub open spec fn qualified(row: NodeRow, symbol: Seq<char>) -> bool {
    pieces::opt_text(row.qualified_name) == Some(symbol)
}

/// A symbol is a name of a node, qualified or bare.
pub open spec fn named(row: NodeRow, symbol: Seq<char>) -> bool {
    qualified(row, symbol) || row.name@ == symbol
}

/// How far the range of a node reaches beyond its first line; a range that lacks a line is
/// shorter than any other.
pub open spec fn span(row: NodeRow) -> int {
    match (row.start_line, row.end_line) {
        (Some(a), Some(b)) => b - a,
        _ => -0x1_0000_0000_0000_0000,
    }
}

/// What the nodes of a name are ordered by: a match of the qualified name comes before one
/// of the bare name, and a shorter range before a longer one.
pub open spec fn preference(row: NodeRow, symbol: Seq<char>) -> int {
    if qualified(row, symbol) {
        span(row)
    } else {
        0x4_0000_0000_0000_0000 + span(row)
    }
}

/// The nodes of a name, as they come.
pub open spec fn matching(rows: Seq<NodeRow>, symbol: Seq<char>) -> Seq<NodeRow>
    decreases rows.len(),
{
    if rows.len() == 0 {
        seq![]
    } else {
        let before = matching(rows.drop_last(), symbol);
        if named(rows.last(), symbol) {
            before.push(rows.last())
        } else {
            before
        }
    }
}

pub open spec fn preferences(rows: Seq<NodeRow>, symbol: Seq<char>) -> Seq<int> {
    rows.map_values(|r: NodeRow| preference(r, symbol))
}

/// The nodes of a name, the preferred ones first.
pub open spec fn ranked(rows: Seq<NodeRow>, symbol: Seq<char>) -> Seq<NodeRow> {
    let found = matching(rows, symbol);
    rank::rising(preferences(found, symbol)).map_values(|i: int| found[i])
}

fn is_qualified(row: &NodeRow, symbol: &str) -> (r: bool)
    ensures
        r == qualified(*row, symbol@),
{
    match &row.qualified_name {
        Some(q) => same_text(q.as_str(), symbol),
        None => false,
    }
}

fn preference_of(row: &NodeRow, symbol: &str) -> (r: i128)
    ensures
        r == preference(*row, symbol@),
{
    let reach: i128 = match (row.start_line, row.end_line) {
        (Some(a), Some(b)) => b as i128 - a as i128,
        _ => -0x1_0000_0000_0000_0000,
    };
    if is_qualified(row, symbol) {
        reach
    } else {
        0x4_0000_0000_0000_0000 + reach
    }
}

/// The nodes that bear a name, the preferred ones first. Where there are several, the name
/// is ambiguous.
pub fn db_query_symbol_all(rows: &Vec<NodeRow>, symbol: &str) -> (r: Vec<NodeRecord>)
    ensures
        r@.len() == ranked(rows@, symbol@).len(),
        forall|i: int|
            0 <= i < r@.len() ==> is_node(#[trigger] r@[i], ranked(rows@, symbol@)[i]),
{
    let mut at: Vec<usize> = Vec::new();
    let mut keys: Vec<i128> = Vec::new();
    let ghost all = matching(rows@, symbol@);
    let mut i: usize = 0;
    assert(rows@.take(0) =~= seq![]);
    assert(rank::numbers(keys@) =~= preferences(matching(rows@.take(0), symbol@), symbol@));
    while i < rows.len()
        invariant
            i <= rows@.len(),
            at@.len() == matching(rows@.take(i as int), symbol@).len(),
            rank::numbers(keys@) == preferences(matching(rows@.take(i as int), symbol@), symbol@),
            forall|k: int|
                0 <= k < at@.len() ==> (#[trigger] at@[k]) < rows@.len() && rows@[at@[k] as int]
                    == matching(rows@.take(i as int), symbol@)[k],
        decreases rows.len() - i,
    {
        let ghost before = matching(rows@.take(i as int), symbol@);
        proof {
            assert(rows@.take(i + 1).drop_last() =~= rows@.take(i as int));
            assert(rows@.take(i + 1).last() == rows@[i as int]);
        }
        let row = &rows[i];
        if is_qualified(row, symbol) || same_text(row.name.as_str(), symbol) {
            at.push(i);
            let ghost sofar = rank::numbers(keys@);
            keys.push(preference_of(row, symbol));
            assert(rank::numbers(keys@) =~= sofar.push(preference(*row, symbol@)));
            assert(rank::numbers(keys@) =~= preferences(before.push(rows@[i as int]), symbol@));
        }
        i = i + 1;
    }
    assert(rows@.take(rows@.len() as int) =~= rows@);
    let order = order_rising(&keys);
    let ghost want = ranked(rows@, symbol@);
    let mut r: Vec<NodeRecord> = Vec::new();
    let mut k: usize = 0;
    proof {
        rank::rising_is_in_order(rank::numbers(keys@));
        assert(rank::places(order@).len() == order@.len());
    }
    while k < order.len()
        invariant
            k <= order@.len(),
            order@.len() == want.len(),
            all == matching(rows@, symbol@),
            want == ranked(rows@, symbol@),
            rank::places(order@) == rank::rising(preferences(all, symbol@)),
            at@.len() == all.len(),
            forall|j: int| 0 <= j < order@.len() ==> #[trigger] order@[j] < at@.len(),
            forall|j: int|
                0 <= j < at@.len() ==> (#[trigger] at@[j]) < rows@.len() && rows@[at@[j] as int]
                    == all[j],
            r@.len() == k,
            forall|j: int| 0 <= j < k ==> is_node(#[trigger] r@[j], want[j]),
        decreases order.len() - k,
    {
        assert(rank::places(order@)[k as int] == order@[k as int]);
        assert(want[k as int] == all[order@[k as int] as int]);
        r.push(row_to_node(&rows[at[order[k]]]));
        k = k + 1;
    }
    r
}

/// The node that a name means where one is enough: the preferred one.
pub fn db_query_symbol(rows: &Vec<NodeRow>, symbol: &str) -> (r: Option<NodeRecord>)
    ensures
        match r {
            Some(n) => ranked(rows@, symbol@).len() > 0 && is_node(n, ranked(rows@, symbol@)[0]),
            None => ranked(rows@, symbol@).len() == 0,
        },
{
    let mut all = db_query_symbol_all(rows, symbol);
    if all.len() > 0 {
        Some(all.remove(0))
    } else {
        None
    }
}

/// The nodes of a name are those that bear it.
proof fn lemma_matching(rows: Seq<NodeRow>, symbol: Seq<char>)
    ensures
        forall|i: int|
            0 <= i < matching(rows, symbol).len() ==> named(
                #[trigger] matching(rows, symbol)[i],
                symbol,
            ) && rows.contains(matching(rows, symbol)[i]),
        forall|k: int|
            0 <= k < rows.len() && named(#[trigger] rows[k], symbol) ==> matching(
                rows,
                symbol,
            ).contains(rows[k]),
    decreases rows.len(),
{
    if rows.len() > 0 {
        let t = rows.drop_last();
        let before = matching(t, symbol);
        let after = matching(rows, symbol);
        lemma_matching(t, symbol);
        assert forall|i: int| 0 <= i < after.len() implies named(#[trigger] after[i], symbol)
            && rows.contains(after[i]) by {
            if i < before.len() {
                assert(after[i] == before[i]);
                let k = choose|k: int| 0 <= k < t.len() && t[k] == before[i];
                assert(rows[k] == t[k]);
            } else {
                assert(rows[rows.len() - 1] == after[i]);
            }
        }
        assert forall|k: int| 0 <= k < rows.len() && named(#[trigger] rows[k], symbol) implies
            after.contains(rows[k]) by {
            if k < t.len() {
                assert(t[k] == rows[k]);
                let i = choose|i: int| 0 <= i < before.len() && before[i] == t[k];
                assert(after[i] == rows[k]);
            } else {
                assert(after[after.len() - 1] == rows[k]);
            }
        }
    }
}

/// The nodes of a name come in order: those whose qualified name it is before the others,
/// and among the same kind a shorter range never behind a longer one.
pub proof fn nodes_come_by_preference(rows: Seq<NodeRow>, symbol: Seq<char>, i: int, j: int)
    requires
        0 <= i < j < ranked(rows, symbol).len(),
    ensures
        qualified(ranked(rows, symbol)[j], symbol) ==> qualified(ranked(rows, symbol)[i], symbol),
        qualified(ranked(rows, symbol)[i], symbol) == qualified(ranked(rows, symbol)[j], symbol)
            ==> span(ranked(rows, symbol)[i]) <= span(ranked(rows, symbol)[j]),
{
    let found = matching(rows, symbol);
    let keys = preferences(found, symbol);
    rank::rising_is_in_order(keys);
    let o = rank::rising(keys);
    assert(rank::goes_first(keys, o[i], o[j]));
    assert(keys[o[i]] == preference(found[o[i]], symbol));
    assert(keys[o[j]] == preference(found[o[j]], symbol));
}

/// The node that a name means is one that bears the name, wherever any does: no node is
/// left out, none has the name as its qualified name unless this one has, and among those
/// of its kind none has a shorter range.
pub proof fn the_preferred_node_is_found(rows: Seq<NodeRow>, symbol: Seq<char>, k: int)
    requires
        0 <= k < rows.len(),
        named(rows[k], symbol),
    ensures
        ({
            let best = ranked(rows, symbol)[0];
            &&& ranked(rows, symbol).len() > 0
            &&& rows.contains(best)
            &&& named(best, symbol)
            &&& qualified(rows[k], symbol) ==> qualified(best, symbol)
            &&& qualified(rows[k], symbol) == qualified(best, symbol) ==> span(best) <= span(
                rows[k],
            )
        }),
{
    let found = matching(rows, symbol);
    let keys = preferences(found, symbol);
    lemma_matching(rows, symbol);
    rank::rising_is_in_order(keys);
    let o = rank::rising(keys);
    let m = choose|m: int| 0 <= m < found.len() && found[m] == rows[k];
    assert(o.contains(m));
    let p = choose|p: int| 0 <= p < o.len() && o[p] == m;
    let all = ranked(rows, symbol);
    assert(all[p] == rows[k]);
    assert(all[0] == found[o[0]]);
    if p > 0 {
        nodes_come_by_preference(rows, symbol, 0, p);
    }
}

/// A name means no node where none bears it.
pub proof fn unknown_names_mean_no_node(rows: Seq<NodeRow>, symbol: Seq<char>)
    requires
        forall|k: int| 0 <= k < rows.len() ==> !named(#[trigger] rows[k], symbol),
    ensures
        ranked(rows, symbol).len() == 0,
{
    let found = matching(rows, symbol);
    lemma_matching(rows, symbol);
    rank::rising_is_in_order(preferences(found, symbol));
    if found.len() > 0 {
        assert(named(found[0], symbol));
        let k = choose|k: int| 0 <= k < rows.len() && rows[k] == found[0];
        assert(!named(rows[k], symbol));
    }
}

// ---------------------------------------------------------------------------
// The node at a place
// ---------------------------------------------------------------------------

/// What asks the database for the nodes around a line of a file.
pub const LOCATION_QUERY: &'static str = "SELECT name, qualified_name, file_path, start_line, end_line, kind, signature, docstring FROM nodes WHERE (file_path = ?1 OR file_path LIKE ?2 OR file_path LIKE ?3) AND start_line <= ?4 AND end_line   >= ?4";

/// The patterns that match a file in any directory.
pub fn suffix_patterns(file: &str) -> (r: (String, String))
    ensures
        r.0@ == "%/"@ + file@,
        r.1@ == "%\\"@ + file@,
{
    let mut a = "%/".to_owned();
    a.append(file);
    let mut b = "%\\".to_owned();
    b.append(file);
    (a, b)
}

/// A node stands around a line.
pub open spec fn around(row: NodeRow, line: u32) -> bool {
    match (row.start_line, row.end_line) {
        (Some(a), Some(b)) => a <= line <= b,
        _ => false,
    }
}

/// How many lines the range of a node has beyond its first.
pub open spec fn width(row: NodeRow) -> int {
    match (row.start_line, row.end_line) {
        (Some(a), Some(b)) => b - a,
        _ => 0,
    }
}

/// A node is the tightest around a line: none around it has a shorter range, and those
/// before it have longer ones.
pub open spec fn tightest_around(rows: Seq<NodeRow>, line: u32, i: int) -> bool {
    &&& 0 <= i < rows.len()
    &&& around(rows[i], line)
    &&& forall|j: int|
        0 <= j < rows.len() && around(#[trigger] rows[j], line) ==> width(rows[i]) <= width(rows[j])
            && (j < i ==> width(rows[i]) < width(rows[j]))
}

/// The lines of a node, where they stand around a line.
fn lines_around(row: &NodeRow, line: u32) -> (r: Option<i128>)
    ensures
        match r {
            Some(n) => around(*row, line) && n == width(*row),
            None => !around(*row, line),
        },
{
    match (row.start_line, row.end_line) {
        (Some(a), Some(b)) => {
            if a <= line as i64 && line as i64 <= b {
                Some(b as i128 - a as i128)
            } else {
                None
            }
        },
        _ => None,
    }
}

/// The tightest node around a line, of those of a file.
pub fn db_query_at_location(rows: &Vec<NodeRow>, line: u32) -> (r: Option<NodeRecord>)
    ensures
        match r {
            Some(n) => exists|i: int| #[trigger] tightest_around(rows@, line, i) && is_node(n, rows@[i]),
            None => forall|i: int| 0 <= i < rows@.len() ==> !around(#[trigger] rows@[i], line),
        },
{
    let mut best: Option<usize> = None;
    let mut least: i128 = 0;
    let mut i: usize = 0;
    while i < rows.len()
        invariant
            i <= rows@.len(),
            match best {
                Some(b) => b < i && around(rows@[b as int], line) && least == width(rows@[b as int])
                    && forall|j: int|
                    0 <= j < i && around(#[trigger] rows@[j], line) ==> width(rows@[b as int])
                        <= width(rows@[j]) && (j < b ==> width(rows@[b as int]) < width(rows@[j])),
                None => forall|j: int| 0 <= j < i ==> !around(#[trigger] rows@[j], line),
            },
        decreases rows.len() - i,
    {
        match lines_around(&rows[i], line) {
            Some(n) => {
                let better = match best {
                    Some(_) => n < least,
                    None => true,
                };
                if better {
                    best = Some(i);
                    least = n;
                }
            },
            None => {},
        }
        i = i + 1;
    }
    match best {
        Some(b) => {
            assert(tightest_around(rows@, line, b as int));
            Some(row_to_node(&rows[b]))
        },
        None => None,
    }
}

/// A node says what its row says.
pub proof fn nodes_say_what_their_rows_say(n: NodeRecord, row: NodeRow)
    requires
        is_node(n, row),
    ensures
        n.name@ == row.name@,
        row.qualified_name matches Some(t) ==> n.qualified_name@ == t@,
        row.file_path matches Some(t) ==> n.file_path@ == t@,
        row.kind matches Some(t) ==> n.kind@ == t@,
        row.signature matches Some(t) ==> n.signature is Some && n.signature->0@ == t@,
        row.docstring matches Some(t) ==> n.docstring is Some && n.docstring->0@ == t@,
        row.signature is None ==> n.signature is None,
        row.docstring is None ==> n.docstring is None,
        row.start_line matches Some(a) ==> (0 <= a <= u32::MAX ==> n.start_line == a),
        row.end_line matches Some(b) ==> (0 <= b <= u32::MAX ==> n.end_line == b),
        row.qualified_name is None ==> n.qualified_name@.len() == 0,
        row.file_path is None ==> n.file_path@.len() == 0,
        row.kind is None ==> n.kind@.len() == 0,
        row.start_line is None ==> n.start_line == 0,
        row.end_line is None ==> n.end_line == 0,
{
}

proof fn lemma_all_matching(rows: Seq<NodeRow>, symbol: Seq<char>)
    ensures
        forall|k: int|
            0 <= k < rows.len() && named(#[trigger] rows[k], symbol) ==> matching(
                rows,
                symbol,
            ).contains(rows[k]),
        forall|j: int|
            0 <= j < matching(rows, symbol).len() ==> rows.contains(
                #[trigger] matching(rows, symbol)[j],
            ) && named(matching(rows, symbol)[j], symbol),
        matching(rows, symbol).len() <= rows.len(),
    decreases rows.len(),
{
    if rows.len() > 0 {
        let t = rows.drop_last();
        lemma_all_matching(t, symbol);
        let old_found = matching(t, symbol);
        let found = matching(rows, symbol);
        assert forall|k: int| 0 <= k < rows.len() && named(#[trigger] rows[k], symbol) implies
            found.contains(rows[k]) by {
            if k < t.len() {
                assert(t[k] == rows[k]);
                let j = choose|j: int| 0 <= j < old_found.len() && old_found[j] == t[k];
                assert(found[j] == rows[k]);
            } else {
                assert(found[old_found.len() as int] == rows[k]);
            }
        }
        assert forall|j: int| 0 <= j < found.len() implies rows.contains(#[trigger] found[j])
            && named(found[j], symbol) by {
            if j < old_found.len() {
                assert(found[j] == old_found[j]);
                let k = choose|k: int| 0 <= k < t.len() && t[k] == old_found[j];
                assert(rows[k] == found[j]);
            } else {
                assert(rows[rows.len() - 1] == found[j]);
            }
        }
    }
}

/// A symbol is found under its qualified name and under its bare name, and nothing is found
/// that has neither.
pub proof fn symbols_are_found_by_either_name(rows: Seq<NodeRow>, symbol: Seq<char>, row: NodeRow)
    ensures
        ranked(rows, symbol).contains(row) <==> rows.contains(row) && (row.name@ == symbol || (
        row.qualified_name matches Some(q) && q@ == symbol)),
{
    lemma_all_matching(rows, symbol);
    let found = matching(rows, symbol);
    let keys = preferences(found, symbol);
    rank::rising_is_in_order(keys);
    let order = rank::rising(keys);
    let r = ranked(rows, symbol);
    if r.contains(row) {
        let i = choose|i: int| 0 <= i < r.len() && r[i] == row;
        assert(0 <= order[i] < found.len());
        assert(r[i] == found[order[i]]);
    }
    if rows.contains(row) && (row.name@ == symbol || (row.qualified_name matches Some(q) && q@
        == symbol)) {
        let k = choose|k: int| 0 <= k < rows.len() && rows[k] == row;
        assert(named(rows[k], symbol));
        let j = choose|j: int| 0 <= j < found.len() && found[j] == row;
        assert(order.contains(j));
        let i = choose|i: int| 0 <= i < order.len() && order[i] == j;
        assert(r[i] == row);
    }
}

/// Of the nodes of a name, one whose qualified name it is comes before one that only bears
/// it, and of two of the same kind the one with fewer lines.
pub proof fn shorter_ranges_come_first(
    rows: Seq<NodeRow>,
    symbol: Seq<char>,
    i: int,
    j: int,
)
    requires
        0 <= i < j < ranked(rows, symbol).len(),
    ensures
        ({
            let a = ranked(rows, symbol)[i];
            let b = ranked(rows, symbol)[j];
            let whole = |r: NodeRow| r.qualified_name matches Some(q) && q@ == symbol;
            &&& whole(b) ==> whole(a)
            &&& whole(a) == whole(b) && a.start_line is Some && a.end_line is Some
                && b.start_line is Some && b.end_line is Some ==> a.end_line->0 - a.start_line->0
                <= b.end_line->0 - b.start_line->0
        }),
{
    nodes_come_by_preference(rows, symbol, i, j);
    let a = ranked(rows, symbol)[i];
    let b = ranked(rows, symbol)[j];
    assert(qualified(a, symbol) == (a.qualified_name matches Some(q) && q@ == symbol));
    assert(qualified(b, symbol) == (b.qualified_name matches Some(q) && q@ == symbol));
}

proof fn lemma_tightest(rows: Seq<NodeRow>, line: u32, n: int) -> (i: int)
    requires
        0 <= n <= rows.len(),
        exists|k: int| 0 <= k < n && around(#[trigger] rows[k], line),
    ensures
        0 <= i < n,
        around(rows[i], line),
        forall|j: int|
            0 <= j < n && around(#[trigger] rows[j], line) ==> width(rows[i]) <= width(rows[j]) && (j
                < i ==> width(rows[i]) < width(rows[j])),
    decreases n,
{
    let k = choose|k: int| 0 <= k < n && around(#[trigger] rows[k], line);
    if exists|k: int| 0 <= k < n - 1 && around(#[trigger] rows[k], line) {
        let i = lemma_tightest(rows, line, n - 1);
        if around(rows[n - 1], line) && width(rows[n - 1]) < width(rows[i]) {
            n - 1
        } else {
            i
        }
    } else {
        assert(k == n - 1);
        n - 1
    }
}

/// Wherever a range has the line, one is found, it has the line, and no range that has the
/// line is shorter.
pub proof fn the_tightest_range_is_found(rows: Seq<NodeRow>, line: u32, k: int, i: int)
    requires
        0 <= k < rows.len(),
        rows[k].start_line is Some,
        rows[k].end_line is Some,
        rows[k].start_line->0 <= line <= rows[k].end_line->0,
    ensures
        exists|i: int| #[trigger] tightest_around(rows, line, i),
        tightest_around(rows, line, i) ==> {
            &&& 0 <= i < rows.len() && rows[i].start_line is Some && rows[i].end_line is Some
            &&& rows[i].start_line->0 <= line <= rows[i].end_line->0
            &&& rows[i].end_line->0 - rows[i].start_line->0 <= rows[k].end_line->0
                - rows[k].start_line->0
        },
{
    assert(around(rows[k], line));
    let best = lemma_tightest(rows, line, rows.len() as int);
    assert(tightest_around(rows, line, best));
}

/// The version that the tool prints is its last word.
pub proof fn the_last_word_is_the_version(ps: Seq<Seq<char>>, word: Seq<char>, n: nat)
    requires
        word.len() > 0,
    ensures
        last_piece(ps.push(word) + Seq::new(n, |i: int| Seq::<char>::empty())) == word,
    decreases n,
{
    let blank = Seq::new(n, |i: int| Seq::<char>::empty());
    let all = ps.push(word) + blank;
    if n == 0 {
        assert(all =~= ps.push(word));
    } else {
        let fewer = (n - 1) as nat;
        the_last_word_is_the_version(ps, word, fewer);
        assert(all.drop_last() =~= ps.push(word) + Seq::new(fewer, |i: int| Seq::<char>::empty()));
        assert(all.last().len() == 0);
    }
}

/// What a tool said is what it printed where it printed anything, and else what it said on the
/// other channel.
pub proof fn the_first_output_counts(a: Seq<char>, b: Seq<char>)
    ensures
        text::trim(a, CharClass::Space).len() > 0 ==> first_output(a, b) == text::trim(
            a,
            CharClass::Space,
        ),
        text::trim(a, CharClass::Space).len() == 0 ==> first_output(a, b) == text::trim(
            b,
            CharClass::Space,
        ),
{
}

} // verus!
