//! Answers of a code graph: symbols in JSON, the files that it tracks, and its size.

use vstd::prelude::*;

use crate::indexing;
use crate::indexing::{glob_matches, pattern_problem};
use crate::json;
use crate::json::{number, push_member, Json, JsonView};
use crate::pieces;
use crate::pieces::{has_member, join_texts, write_decimal};
use crate::symbols;
use crate::text;
use crate::text::{chars_of, contains_text, find_class, CharClass};

verus! {

// ---------------------------------------------------------------------------
// Symbols
// ---------------------------------------------------------------------------

/// A symbol of a code graph.
#[derive(Debug, Clone)]
pub struct GraphNode {
    pub id: String,
    pub name: String,
    pub qualified_name: String,
    pub kind: String,
    pub file_path: String,
    pub language: String,
    pub start_line: u32,
    pub end_line: u32,
    pub signature: Option<String>,
    pub is_async: bool,
}

/// A text that may be missing.
pub open spec fn text_tree(t: Option<Seq<char>>) -> JsonView {
    match t {
        Some(s) => JsonView::Text(s),
        None => JsonView::Null,
    }
}

/// A symbol in JSON.
pub open spec fn node_tree(n: GraphNode) -> JsonView {
    JsonView::Object(
        seq![
            ("id"@, JsonView::Text(n.id@)),
            ("name"@, JsonView::Text(n.name@)),
            ("qualifiedName"@, JsonView::Text(n.qualified_name@)),
            ("kind"@, JsonView::Text(n.kind@)),
            ("filePath"@, JsonView::Text(n.file_path@)),
            ("language"@, JsonView::Text(n.language@)),
            ("startLine"@, json::number_tree(n.start_line)),
            ("endLine"@, json::number_tree(n.end_line)),
            ("signature"@, text_tree(pieces::opt_text(n.signature))),
            ("isAsync"@, JsonView::Flag(n.is_async)),
        ],
    )
}

/// A symbol as a hit.
pub open spec fn hit_tree(n: GraphNode) -> JsonView {
    JsonView::Object(seq![("node"@, node_tree(n))])
}

/// A symbol in JSON.
pub fn node_to_json(n: &GraphNode) -> (r: Json)
    ensures
        r@ == node_tree(*n),
{
    let mut v: Vec<(String, Json)> = Vec::new();
    assert(json::members(v@) =~= seq![]);
    push_member(&mut v, "id", Json::Text(n.id.clone()));
    push_member(&mut v, "name", Json::Text(n.name.clone()));
    push_member(&mut v, "qualifiedName", Json::Text(n.qualified_name.clone()));
    push_member(&mut v, "kind", Json::Text(n.kind.clone()));
    push_member(&mut v, "filePath", Json::Text(n.file_path.clone()));
    push_member(&mut v, "language", Json::Text(n.language.clone()));
    push_member(&mut v, "startLine", number(n.start_line));
    push_member(&mut v, "endLine", number(n.end_line));
    let signature = match &n.signature {
        Some(s) => Json::Text(s.clone()),
        None => Json::Null,
    };
    push_member(&mut v, "signature", signature);
    push_member(&mut v, "isAsync", Json::Flag(n.is_async));
    let r = Json::Object(v);
    proof {
        let want = node_tree(*n)->Object_0;
        assert(json::members(v@) =~= want);
    }
    r
}

/// A symbol as a hit.
pub fn envelope(n: &GraphNode) -> (r: Json)
    ensures
        r@ == hit_tree(*n),
{
    let mut v: Vec<(String, Json)> = Vec::new();
    assert(json::members(v@) =~= seq![]);
    push_member(&mut v, "node", node_to_json(n));
    let r = Json::Object(v);
    assert(json::members(v@) =~= hit_tree(*n)->Object_0);
    r
}

/// Symbols as hits.
pub open spec fn hit_trees(ns: Seq<GraphNode>) -> Seq<JsonView> {
    ns.map_values(|n: GraphNode| hit_tree(n))
}

fn envelopes(nodes: &Vec<GraphNode>) -> (r: Vec<Json>)
    ensures
        json::trees(r@) == hit_trees(nodes@),
{
    let ghost want = hit_trees(nodes@);
    let mut r: Vec<Json> = Vec::new();
    let mut i: usize = 0;
    assert(json::trees(r@) =~= want.take(0));
    while i < nodes.len()
        invariant
            i <= nodes@.len(),
            want == hit_trees(nodes@),
            json::trees(r@) == want.take(i as int),
        decreases nodes.len() - i,
    {
        let ghost before = r@;
        r.push(envelope(&nodes[i]));
        proof {
            assert(r@.drop_last() =~= before);
            assert(json::trees(r@) =~= want.take(i as int).push(want[i as int]));
            assert(want.take(i + 1) =~= want.take(i as int).push(want[i as int]));
        }
        i = i + 1;
    }
    assert(want.take(want.len() as int) =~= want);
    r
}

/// The answer to a search for symbols.
pub fn query(nodes: &Vec<GraphNode>) -> (r: Json)
    ensures
        r@ == JsonView::List(hit_trees(nodes@)),
{
    Json::List(envelopes(nodes))
}

/// The symbols of calls, each once, in the order in which they first came. `ids` are those
/// that came.
pub open spec fn distinct_nodes(ns: Seq<GraphNode>) -> Seq<GraphNode>
    decreases ns.len(),
{
    if ns.len() == 0 {
        seq![]
    } else {
        let before = distinct_nodes(ns.drop_last());
        if node_ids(ns.drop_last()).contains(ns.last().id@) {
            before
        } else {
            before.push(ns.last())
        }
    }
}

pub open spec fn node_ids(ns: Seq<GraphNode>) -> Seq<Seq<char>> {
    ns.map_values(|n: GraphNode| n.id@)
}

fn distinct_hits(nodes: &Vec<GraphNode>) -> (r: Json)
    ensures
        r@ == JsonView::List(hit_trees(distinct_nodes(nodes@))),
{
    let mut v: Vec<Json> = Vec::new();
    let mut seen: Vec<String> = Vec::new();
    let mut i: usize = 0;
    proof {
        assert(nodes@.take(0) =~= seq![]);
        assert(json::trees(v@) =~= hit_trees(distinct_nodes(nodes@.take(0))));
        assert(pieces::texts(seen@) =~= node_ids(nodes@.take(0)));
    }
    while i < nodes.len()
        invariant
            i <= nodes@.len(),
            json::trees(v@) == hit_trees(distinct_nodes(nodes@.take(i as int))),
            pieces::texts(seen@) == node_ids(nodes@.take(i as int)),
        decreases nodes.len() - i,
    {
        proof {
            assert(nodes@.take(i + 1).drop_last() =~= nodes@.take(i as int));
            assert(nodes@.take(i + 1).last() == nodes@[i as int]);
        }
        let ghost before = v@;
        let ghost had = pieces::texts(seen@);
        if !has_member(&seen, nodes[i].id.as_str()) {
            v.push(envelope(&nodes[i]));
            proof {
                assert(v@.drop_last() =~= before);
                assert(json::trees(v@) =~= hit_trees(distinct_nodes(nodes@.take(i + 1))));
            }
        }
        seen.push(nodes[i].id.clone());
        proof {
            assert(pieces::texts(seen@) =~= had.push(nodes@[i as int].id@));
            assert(pieces::texts(seen@) =~= node_ids(nodes@.take(i + 1)));
        }
        i = i + 1;
    }
    assert(nodes@.take(nodes@.len() as int) =~= nodes@);
    Json::List(v)
}

/// The answer to who calls a symbol: each caller once, though it calls more than once.
pub fn callers(nodes: &Vec<GraphNode>) -> (r: Json)
    ensures
        r@ == JsonView::List(hit_trees(distinct_nodes(nodes@))),
{
    distinct_hits(nodes)
}

/// The answer to what a symbol calls: each callee once.
pub fn callees(nodes: &Vec<GraphNode>) -> (r: Json)
    ensures
        r@ == JsonView::List(hit_trees(distinct_nodes(nodes@))),
{
    distinct_hits(nodes)
}

/// The most symbols that an answer to what depends on a symbol has.
pub const IMPACT_LIMIT: usize = 500;

/// The answer to what depends on a symbol.
pub fn impact(nodes: &Vec<GraphNode>) -> (r: Json)
    ensures
        r@ == JsonView::List(hit_trees(nodes@)),
{
    Json::List(envelopes(nodes))
}

/// The answer to what matters for a task.
pub fn context(nodes: &Vec<GraphNode>) -> (r: Json)
    ensures
        r@ == JsonView::Object(seq![("nodes"@, JsonView::List(hit_trees(nodes@)))]),
{
    let mut v: Vec<(String, Json)> = Vec::new();
    assert(json::members(v@) =~= seq![]);
    let list = Json::List(envelopes(nodes));
    push_member(&mut v, "nodes", list);
    assert(json::members(v@) =~= seq![("nodes"@, JsonView::List(hit_trees(nodes@)))]);
    Json::Object(v)
}

/// No symbol is named twice.
pub proof fn callers_are_distinct(ns: Seq<GraphNode>)
    ensures
        forall|i: int, j: int|
            0 <= i < j < distinct_nodes(ns).len() ==> (#[trigger] distinct_nodes(ns)[i]).id@ != (
            #[trigger] distinct_nodes(ns)[j]).id@,
        forall|i: int|
            0 <= i < distinct_nodes(ns).len() ==> node_ids(ns).contains(
                (#[trigger] distinct_nodes(ns)[i]).id@,
            ),
    decreases ns.len(),
{
    if ns.len() > 0 {
        let t = ns.drop_last();
        callers_are_distinct(t);
        let before = distinct_nodes(t);
        let after = distinct_nodes(ns);
        assert forall|i: int| 0 <= i < after.len() implies node_ids(ns).contains(
            (#[trigger] after[i]).id@,
        ) by {
            if i < before.len() {
                assert(after[i] == before[i]);
                let k = choose|k: int|
                    0 <= k < node_ids(t).len() && node_ids(t)[k] == before[i].id@;
                assert(node_ids(ns)[k] == before[i].id@);
            } else {
                assert(node_ids(ns)[ns.len() - 1] == after[i].id@);
            }
        }
        assert forall|i: int, j: int| 0 <= i < j < after.len() implies (#[trigger] after[i]).id@
            != (#[trigger] after[j]).id@ by {
            assert(after[i] == before[i]);
            if j < before.len() {
                assert(after[j] == before[j]);
            } else {
                assert(node_ids(t).contains(before[i].id@));
            }
        }
    }
}

/// No symbol is lost: every node that came is there by its id.
pub proof fn no_caller_is_lost(ns: Seq<GraphNode>, i: int)
    requires
        0 <= i < ns.len(),
    ensures
        exists|j: int|
            0 <= j < distinct_nodes(ns).len() && (#[trigger] distinct_nodes(ns)[j]).id@ == ns[i].id@,
    decreases ns.len(),
{
    let t = ns.drop_last();
    let before = distinct_nodes(t);
    let after = distinct_nodes(ns);
    if i < t.len() {
        no_caller_is_lost(t, i);
        let j = choose|j: int| 0 <= j < before.len() && (#[trigger] before[j]).id@ == t[i].id@;
        assert(after[j] == before[j]);
    } else if node_ids(t).contains(ns.last().id@) {
        let m = choose|m: int| 0 <= m < node_ids(t).len() && node_ids(t)[m] == ns.last().id@;
        no_caller_is_lost(t, m);
        let j = choose|j: int| 0 <= j < before.len() && (#[trigger] before[j]).id@ == t[m].id@;
        assert(after[j] == before[j]);
    } else {
        assert(after[before.len() as int] == ns[i]);
    }
}

proof fn lemma_is_first(ns: Seq<GraphNode>, i: int)
    requires
        ns.len() > 0,
        is_first(ns.drop_last(), i),
    ensures
        is_first(ns, i),
{
    let t = ns.drop_last();
    assert forall|j: int| 0 <= j < i implies (#[trigger] ns[j]).id@ != ns[i].id@ by {
        assert(t[j] == ns[j]);
    }
}

proof fn lemma_last_is_first(ns: Seq<GraphNode>)
    requires
        ns.len() > 0,
        !node_ids(ns.drop_last()).contains(ns.last().id@),
    ensures
        is_first(ns, ns.len() - 1),
{
    let t = ns.drop_last();
    assert forall|j: int| 0 <= j < t.len() implies (#[trigger] ns[j]).id@ != ns.last().id@ by {
        assert(node_ids(t)[j] == ns[j].id@);
    }
}

/// A symbol that came more than once is shown as it came first.
pub proof fn the_first_of_a_caller_is_kept(ns: Seq<GraphNode>, j: int)
    requires
        0 <= j < distinct_nodes(ns).len(),
    ensures
        exists|i: int| #[trigger] is_first(ns, i) && ns[i] == distinct_nodes(ns)[j],
    decreases ns.len(),
{
    let t = ns.drop_last();
    if j < distinct_nodes(t).len() {
        the_first_of_a_caller_is_kept(t, j);
        let i = choose|i: int| #[trigger] is_first(t, i) && t[i] == distinct_nodes(t)[j];
        lemma_is_first(ns, i);
    } else {
        lemma_last_is_first(ns);
        assert(ns[ns.len() - 1] == distinct_nodes(ns)[j]);
    }
}

/// Symbols stay in the order in which they came first.
pub proof fn callers_stay_in_order(ns: Seq<GraphNode>, j: int, k: int)
    requires
        0 <= j < k < distinct_nodes(ns).len(),
    ensures
        exists|a: int, b: int|
            a < b && #[trigger] is_first(ns, a) && #[trigger] is_first(ns, b) && ns[a]
                == distinct_nodes(ns)[j] && ns[b] == distinct_nodes(ns)[k],
    decreases ns.len(),
{
    let t = ns.drop_last();
    let d = distinct_nodes(t);
    if k < d.len() {
        callers_stay_in_order(t, j, k);
        let (a, b) = choose|a: int, b: int|
            a < b && #[trigger] is_first(t, a) && #[trigger] is_first(t, b) && t[a] == d[j] && t[b]
                == d[k];
        lemma_is_first(ns, a);
        lemma_is_first(ns, b);
    } else {
        the_first_of_a_caller_is_kept(t, j);
        let a = choose|i: int| #[trigger] is_first(t, i) && t[i] == d[j];
        lemma_is_first(ns, a);
        lemma_last_is_first(ns);
        let b = ns.len() - 1;
        assert(a < b && is_first(ns, a) && is_first(ns, b));
    }
}

/// A node is the first that came with its id.
pub open spec fn is_first(ns: Seq<GraphNode>, i: int) -> bool {
    0 <= i < ns.len() && forall|j: int| 0 <= j < i ==> (#[trigger] ns[j]).id@ != ns[i].id@
}

/// Every node is listed, in its place, wrapped as a hit is.
pub proof fn every_node_is_listed(ns: Seq<GraphNode>, i: int)
    requires
        0 <= i < ns.len(),
    ensures
        hit_trees(ns).len() == ns.len(),
        json::member(hit_trees(ns)[i], "node"@) == Some(node_tree(ns[i])),
{
    written_symbols_are_read_back(ns[i]);
}

/// What the graph writes of a symbol is read back: its names, its kind, its file, its
/// lines and its signature.
pub proof fn written_symbols_are_read_back(n: GraphNode)
    ensures
        ({
            let v = symbols::node(hit_tree(n));
            &&& v == node_tree(n)
            &&& json::word(v, "name"@) == n.name@
            &&& json::word(v, "qualifiedName"@) == n.qualified_name@
            &&& json::word(v, "kind"@) == n.kind@
            &&& json::word(v, "filePath"@) == n.file_path@
            &&& json::count(v, "startLine"@, 0) == n.start_line
            &&& json::count(v, "endLine"@, 0) == n.end_line
            &&& json::word(v, "signature"@) == (match n.signature {
                Some(s) => s@,
                None => seq![],
            })
        }),
{
    reveal_strlit("id");
    reveal_strlit("name");
    reveal_strlit("qualifiedName");
    reveal_strlit("kind");
    reveal_strlit("filePath");
    reveal_strlit("language");
    reveal_strlit("startLine");
    reveal_strlit("endLine");
    reveal_strlit("signature");
    assert("id"@.len() == 2);
    assert("name"@.len() == 4 && "name"@[0] == 'n');
    assert("qualifiedName"@.len() == 13);
    assert("kind"@.len() == 4 && "kind"@[0] == 'k');
    assert("filePath"@.len() == 8 && "filePath"@[0] == 'f');
    assert("language"@.len() == 8 && "language"@[0] == 'l');
    assert("startLine"@.len() == 9 && "startLine"@[1] == 't');
    assert("endLine"@.len() == 7);
    assert("signature"@.len() == 9 && "signature"@[1] == 'i');
    let ms = node_tree(n)->Object_0;
    lemma_found(ms, 1);
    lemma_found(ms, 2);
    lemma_found(ms, 3);
    lemma_found(ms, 4);
    lemma_found(ms, 6);
    lemma_found(ms, 7);
    lemma_found(ms, 8);
    let es = hit_tree(n)->Object_0;
    lemma_found(es, 0);
}

proof fn lemma_found(ms: Seq<(Seq<char>, JsonView)>, i: int)
    requires
        0 <= i < ms.len(),
        forall|j: int| 0 <= j < i ==> (#[trigger] ms[j]).0 != ms[i].0,
    ensures
        json::found(ms, ms[i].0) == Some(ms[i].1),
    decreases i,
{
    if i > 0 {
        let t = ms.drop_first();
        assert(ms[0].0 != ms[i].0);
        assert forall|j: int| 0 <= j < i - 1 implies (#[trigger] t[j]).0 != t[i - 1].0 by {
            assert(t[j] == ms[j + 1]);
        }
        assert(t[i - 1] == ms[i]);
        lemma_found(t, i - 1);
    }
}

// ---------------------------------------------------------------------------
// The index
// ---------------------------------------------------------------------------

/// A code graph has to be there to be asked.
pub fn check_index(project: &str, exists: bool) -> (r: Result<(), String>)
    ensures
        match r {
            Ok(_) => exists,
            Err(e) => !exists && e@ == "No codegraph index found at '"@ + project@
                + "'. Run `sempkg index` first."@,
        },
{
    if exists {
        return Ok(());
    }
    let mut e = "No codegraph index found at '".to_owned();
    e.append(project);
    e.append("'. Run `sempkg index` first.");
    Err(e)
}

/// The size of a code graph.
pub fn status_text(schema: u64, files: u64, nodes: u64, edges: u64) -> (r: String)
    ensures
        r@ == "CodeGraph index (schema v"@ + pieces::decimal(schema as nat) + "): "@
            + pieces::decimal(files as nat) + " files, "@ + pieces::decimal(nodes as nat)
            + " nodes, "@ + pieces::decimal(edges as nat) + " edges"@,
{
    let mut r = "CodeGraph index (schema v".to_owned();
    r.append(write_decimal(schema).as_str());
    r.append("): ");
    r.append(write_decimal(files).as_str());
    r.append(" files, ");
    r.append(write_decimal(nodes).as_str());
    r.append(" nodes, ");
    r.append(write_decimal(edges).as_str());
    r.append(" edges");
    r
}

// ---------------------------------------------------------------------------
// Files
// ---------------------------------------------------------------------------

/// A filter with a wildcard is a glob pattern.
pub open spec fn is_glob(filter: Seq<char>) -> bool {
    text::find(filter, CharClass::Is('*')) < filter.len() || text::find(
        filter,
        CharClass::Is('?'),
    ) < filter.len()
}

/// A file passes a filter: it matches the glob pattern, or it has the text in whatever
/// case.
pub open spec fn passes(filter: Seq<char>, path: Seq<char>, cased: bool) -> bool {
    if is_glob(filter) {
        indexing::glob_match(filter, path, cased)
    } else {
        text::has_text(text::lowercased(path), text::lowercased(filter))
    }
}

/// The files that pass, in order.
pub open spec fn passing(filter: Option<Seq<char>>, paths: Seq<Seq<char>>, cased: bool) -> Seq<
    Seq<char>,
>
    decreases paths.len(),
{
    if paths.len() == 0 {
        seq![]
    } else {
        let before = passing(filter, paths.drop_last(), cased);
        if filter is None || passes(filter->0, paths.last(), cased) {
            before.push(paths.last())
        } else {
            before
        }
    }
}

/// What is said of the files of a code graph.
pub open spec fn files_text(
    project: Seq<char>,
    paths: Seq<Seq<char>>,
    filter: Option<Seq<char>>,
    limit: nat,
    cased: bool,
) -> Seq<char> {
    if filter is Some && is_glob(filter->0) && indexing::glob_error(filter->0) is Some {
        "Filter error: invalid glob pattern '"@ + filter->0 + "': "@ + indexing::glob_error(
            filter->0,
        )->0 + ". Use * for any segment, ** for path wildcards, or a plain substring."@
    } else {
        let found = passing(filter, paths, cased);
        if found.len() == 0 {
            match filter {
                Some(f) => "No files matched filter '"@ + f + "' in package at '"@ + project
                    + "'. The index has "@ + pieces::decimal(paths.len())
                    + " file(s) total. Try a shorter substring or use * wildcards (e.g. *.rs)."@,
                None => "No files are tracked in the codegraph index at '"@ + project + "'."@,
            }
        } else if found.len() > limit {
            pieces::join(found.take(limit as int), "\n"@) + "\n… "@ + pieces::decimal(
                (found.len() - limit) as nat,
            ) + " more file(s) not shown (limit "@ + pieces::decimal(limit)
                + "). Use a filter to narrow results."@
        } else {
            pieces::join(found, "\n"@)
        }
    }
}

fn has_wildcard(filter: &str) -> (r: bool)
    ensures
        r == is_glob(filter@),
{
    let cs = chars_of(filter);
    find_class(cs.as_slice(), CharClass::Is('*')) < cs.len() || find_class(
        cs.as_slice(),
        CharClass::Is('?'),
    ) < cs.len()
}

/// The files that a code graph tracks, those that pass a filter where there is one, and no
/// more than `limit` of them. `cased` is whether paths of this system that differ in the case
/// of letters differ.
pub fn files(
    project: &str,
    all_files: &Vec<String>,
    filter: Option<&str>,
    limit: usize,
    cased: bool,
) -> (r: String)
    ensures
        r@ == files_text(
            project@,
            pieces::texts(all_files@),
            pieces::opt_str(filter),
            limit as nat,
            cased,
        ),
{
    let ghost fv = pieces::opt_str(filter);
    let ghost all = pieces::texts(all_files@);
    let mut glob = false;
    let mut lower = String::new();
    match filter {
        Some(f) => {
            glob = has_wildcard(f);
            if glob {
                match pattern_problem(f) {
                    Some(e) => {
                        let mut r = "Filter error: invalid glob pattern '".to_owned();
                        r.append(f);
                        r.append("': ");
                        r.append(e.as_str());
                        r.append(
                            ". Use * for any segment, ** for path wildcards, or a plain substring.",
                        );
                        return r;
                    },
                    None => {},
                }
            }
            lower = f.to_lowercase();
        },
        None => {},
    }
    let mut found: Vec<String> = Vec::new();
    let mut i: usize = 0;
    proof {
        assert(all.take(0) =~= seq![]);
        assert(pieces::texts(found@) =~= seq![]);
    }
    while i < all_files.len()
        invariant
            i <= all_files@.len(),
            all == pieces::texts(all_files@),
            fv == pieces::opt_str(filter),
            filter is Some ==> glob == is_glob(filter->0@) && lower@ == text::lowercased(
                filter->0@,
            ),
            filter is Some && glob ==> indexing::glob_error(filter->0@) is None,
            pieces::texts(found@) == passing(fv, all.take(i as int), cased),
        decreases all_files.len() - i,
    {
        let p = all_files[i].as_str();
        proof {
            assert(all.take(i + 1).drop_last() =~= all.take(i as int));
            assert(all.take(i + 1).last() == p@);
        }
        let ghost before = pieces::texts(found@);
        let ok = match filter {
            None => true,
            Some(f) => {
                if glob {
                    glob_matches(f, p, cased)
                } else {
                    contains_text(p.to_lowercase().as_str(), lower.as_str())
                }
            },
        };
        if ok {
            found.push(all_files[i].clone());
            assert(pieces::texts(found@) =~= before.push(p@));
        }
        i = i + 1;
    }
    proof {
        assert(all.take(all.len() as int) =~= all);
        assert(pieces::texts(found@).len() == found@.len());
    }
    if found.len() == 0 {
        match filter {
            Some(f) => {
                let mut r = "No files matched filter '".to_owned();
                r.append(f);
                r.append("' in package at '");
                r.append(project);
                r.append("'. The index has ");
                r.append(write_decimal(all_files.len() as u64).as_str());
                r.append(
                    " file(s) total. Try a shorter substring or use * wildcards (e.g. *.rs).",
                );
                return r;
            },
            None => {
                let mut r = "No files are tracked in the codegraph index at '".to_owned();
                r.append(project);
                r.append("'.");
                return r;
            },
        }
    }
    let total: usize = found.len();
    if total > limit {
        let ghost whole = pieces::texts(found@);
        found.truncate(limit);
        assert(pieces::texts(found@) =~= whole.take(limit as int));
        let mut r = join_texts(&found, "\n");
        r.append("\n… ");
        r.append(write_decimal((total - limit) as u64).as_str());
        r.append(" more file(s) not shown (limit ");
        r.append(write_decimal(limit as u64).as_str());
        r.append("). Use a filter to narrow results.");
        r
    } else {
        join_texts(&found, "\n")
    }
}

/// The files that pass a filter are kept one by one, in their order, and all of them where
/// there is no filter.
pub proof fn files_pass_one_by_one(
    a: Seq<Seq<char>>,
    b: Seq<Seq<char>>,
    path: Seq<char>,
    filter: Option<Seq<char>>,
    cased: bool,
)
    ensures
        passing(filter, a + b, cased) == passing(filter, a, cased) + passing(filter, b, cased),
        filter is None ==> passing(filter, seq![path], cased) == seq![path],
        filter matches Some(f) ==> passing(filter, seq![path], cased) == (if passes(
            f,
            path,
            cased,
        ) {
            seq![path]
        } else {
            seq![]
        }),
    decreases b.len(),
{
    reveal_with_fuel(passing, 2);
    let one = seq![path];
    assert(one.drop_last() =~= Seq::<Seq<char>>::empty());
    assert(Seq::<Seq<char>>::empty().push(path) =~= one);
    if b.len() == 0 {
        assert(a + b =~= a);
        assert(passing(filter, a, cased) + passing(filter, b, cased) =~= passing(filter, a, cased));
    } else {
        let t = b.drop_last();
        files_pass_one_by_one(a, t, path, filter, cased);
        assert((a + b).drop_last() =~= a + t);
        let x = passing(filter, a, cased);
        let y = passing(filter, t, cased);
        assert((x + y).push(b.last()) =~= x + y.push(b.last()));
    }
}

/// A filter with a wildcard is a pattern; any other is a text that a path has, in whatever
/// case.
pub proof fn filters_are_patterns_or_texts(filter: Seq<char>, path: Seq<char>, cased: bool)
    ensures
        filter.contains('*') || filter.contains('?') ==> passes(filter, path, cased)
            == indexing::glob_match(filter, path, cased),
        !filter.contains('*') && !filter.contains('?') ==> passes(filter, path, cased)
            == text::has_text(text::lowercased(path), text::lowercased(filter)),
{
    lemma_holds(filter, '*');
    lemma_holds(filter, '?');
}

proof fn lemma_holds(s: Seq<char>, c: char)
    ensures
        text::find(s, CharClass::Is(c)) < s.len() <==> s.contains(c),
{
    let k = CharClass::Is(c);
    text::lemma_find_bounds(s, k);
    if s.contains(c) {
        let i = choose|i: int| 0 <= i < s.len() && s[i] == c;
        assert(text::in_class(k, s[i]));
    }
    if text::find(s, k) < s.len() {
        assert(s[text::find(s, k)] == c);
    }
}

/// The files of a code graph are listed as far as the limit goes, and it is said how many are
/// left out.
pub proof fn files_are_listed(
    project: Seq<char>,
    paths: Seq<Seq<char>>,
    limit: nat,
    cased: bool,
)
    requires
        paths.len() > 0,
    ensures
        paths.len() <= limit ==> files_text(project, paths, None, limit, cased) == pieces::join(
            paths,
            "\n"@,
        ),
        paths.len() > limit ==> text::starts_with(
            files_text(project, paths, None, limit, cased),
            pieces::join(paths.take(limit as int), "\n"@) + "\n… "@ + pieces::decimal(
                (paths.len() - limit) as nat,
            ),
        ),
{
    lemma_all_pass(paths, cased);
    if paths.len() > limit {
        let t = files_text(project, paths, None, limit, cased);
        let head = pieces::join(paths.take(limit as int), "\n"@) + "\n… "@ + pieces::decimal(
            (paths.len() - limit) as nat,
        );
        assert(t.subrange(0, head.len() as int) =~= head);
    }
}

proof fn lemma_all_pass(paths: Seq<Seq<char>>, cased: bool)
    ensures
        passing(None, paths, cased) == paths,
    decreases paths.len(),
{
    if paths.len() > 0 {
        lemma_all_pass(paths.drop_last(), cased);
        assert(paths.drop_last().push(paths.last()) =~= paths);
    } else {
        assert(paths =~= Seq::<Seq<char>>::empty());
    }
}

} // verus!
