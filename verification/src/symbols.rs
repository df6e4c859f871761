//! Symbols of a code graph, as its queries give them in JSON.

use vstd::prelude::*;

use crate::json;
use crate::json::{read_list, Json, JsonView};
use crate::pieces;
use crate::text;
use crate::pieces::{byte_size, join_texts, write_decimal};

verus! {

/// The symbol of a hit: hits come as they are, or wrapped together with a score.
pub open spec fn node(v: JsonView) -> JsonView {
    match json::member(v, "node"@) {
        Some(n) => n,
        None => v,
    }
}

pub fn node_of(v: &Json) -> (r: &Json)
    ensures
        r@ == node(v@),
{
    match v.get("node") {
        Some(n) => n,
        None => v,
    }
}

/// What a symbol is called: by its qualified name, where it has one.
pub open spec fn label(n: JsonView) -> Seq<char> {
    if json::word(n, "qualifiedName"@).len() > 0 {
        json::word(n, "qualifiedName"@)
    } else {
        json::word(n, "name"@)
    }
}

pub fn label_of(n: &Json) -> (r: String)
    ensures
        r@ == label(n@),
{
    let q = n.word("qualifiedName");
    if q.as_str().is_empty() {
        n.word("name")
    } else {
        q
    }
}

/// Where a symbol stands: its file, and its lines where they are known.
pub open spec fn place(n: JsonView) -> Seq<char> {
    let file = json::word(n, "filePath"@);
    let start = json::count(n, "startLine"@, 0);
    if file.len() == 0 {
        seq![]
    } else if start > 0 {
        file + ":"@ + pieces::decimal(start as nat) + "-"@ + pieces::decimal(
            json::count(n, "endLine"@, 0) as nat,
        )
    } else {
        file
    }
}

fn place_of(n: &Json) -> (r: String)
    ensures
        r@ == place(n@),
{
    let mut r = n.word("filePath");
    if r.as_str().is_empty() {
        assert(r@ =~= seq![]);
        return r;
    }
    let start: u64 = n.count("startLine", 0);
    if start > 0 {
        r.append(":");
        r.append(write_decimal(start).as_str());
        r.append("-");
        r.append(write_decimal(n.count("endLine", 0)).as_str());
    }
    r
}

/// A score before a hit.
pub open spec fn score_mark(score: Option<Seq<char>>) -> Seq<char> {
    match score {
        Some(s) => "["@ + s + "] "@,
        None => seq![],
    }
}

pub fn mark_score(score: Option<&str>) -> (r: String)
    ensures
        r@ == score_mark(pieces::opt_str(score)),
{
    match score {
        Some(s) => {
            let mut r = "[".to_owned();
            r.append(s);
            r.append("] ");
            r
        },
        None => {
            let r = String::new();
            assert(r@ =~= seq![]);
            r
        },
    }
}

/// A hit on one line, with its signature on another where it has one.
pub open spec fn symbol_text(v: JsonView, score: Option<Seq<char>>) -> Seq<char> {
    let n = node(v);
    let kind = json::word(n, "kind"@);
    let sig = json::word(n, "signature"@);
    let named = score_mark(score) + label(n);
    let with_kind = if kind.len() > 0 {
        named + " ("@ + kind + ")"@
    } else {
        named
    };
    let placed = if place(n).len() > 0 {
        with_kind + " @ "@ + place(n)
    } else {
        with_kind
    };
    if sig.len() > 0 {
        placed + "\n"@ + sig
    } else {
        placed
    }
}

/// Show a hit of the code graph, with its score where it has one.
pub fn fmt_codegraph_hit(item: &Json, score: Option<&str>) -> (r: String)
    ensures
        r@ == symbol_text(item@, pieces::opt_str(score)),
{
    let n = node_of(item);
    let mut r = mark_score(score);
    r.append(label_of(n).as_str());
    let kind = n.word("kind");
    if !kind.as_str().is_empty() {
        r.append(" (");
        r.append(kind.as_str());
        r.append(")");
    }
    let at = place_of(n);
    if !at.as_str().is_empty() {
        r.append(" @ ");
        r.append(at.as_str());
    }
    let sig = n.word("signature");
    if !sig.as_str().is_empty() {
        r.append("\n");
        r.append(sig.as_str());
    }
    r
}

/// What is shown of the items of an answer: one hit behind the other.
pub open spec fn items_text(items: Seq<JsonView>) -> Seq<char> {
    if items.len() == 0 {
        "No results."@
    } else {
        pieces::join(items.map_values(|v: JsonView| symbol_text(v, None)), "\n"@)
    }
}

/// What is shown of a query's answer: its hits line by line. An answer that is no list
/// is shown as it is.
pub open spec fn answer_text(answer: Seq<char>) -> Seq<char> {
    match json::listed(answer) {
        None => answer,
        Some(items) => items_text(items),
    }
}

/// Show the items of an answer.
pub fn fmt_items(items: &Vec<Json>) -> (r: String)
    ensures
        r@ == items_text(json::trees(items@)),
{
    if items.len() == 0 {
        assert(json::trees(items@) =~= seq![]);
        return "No results.".to_owned();
    }
    let ghost all = json::trees(items@);
    let ghost want = all.map_values(|v: JsonView| symbol_text(v, None));
    let mut parts: Vec<String> = Vec::new();
    let mut i: usize = 0;
    proof {
        json::lemma_trees(items@);
        assert(pieces::texts(parts@) =~= want.take(0));
    }
    while i < items.len()
        invariant
            i <= items@.len(),
            want.len() == items@.len(),
            forall|j: int|
                0 <= j < items@.len() ==> want[j] == symbol_text(
                    (#[trigger] items@[j])@,
                    None,
                ),
            pieces::texts(parts@) == want.take(i as int),
        decreases items.len() - i,
    {
        let ghost before = pieces::texts(parts@);
        parts.push(fmt_codegraph_hit(&items[i], None));
        proof {
            assert(want[i as int] == symbol_text(items@[i as int]@, None));
            assert(pieces::texts(parts@) =~= before.push(want[i as int]));
            assert(want.take(i + 1) =~= want.take(i as int).push(want[i as int]));
        }
        i = i + 1;
    }
    assert(want.take(items@.len() as int) =~= want);
    join_texts(&parts, "\n")
}

/// Show an answer of the code graph.
pub fn fmt_codegraph_json(answer: &str) -> (r: String)
    ensures
        r@ == answer_text(answer@),
{
    match read_list(answer) {
        None => answer.to_owned(),
        Some(items) => fmt_items(&items),
    }
}

// ---------------------------------------------------------------------------
// Symbols with their source
// ---------------------------------------------------------------------------

/// How many bytes of source code an answer shows.
pub const SOURCE_BUDGET: u128 = 12_000;

/// What the symbols of items are called, in order.
pub fn item_names(items: &Vec<Json>) -> (r: Vec<String>)
    ensures
        pieces::texts(r@) == json::trees(items@).map_values(|v: JsonView| label(node(v))),
{
    let mut r: Vec<String> = Vec::new();
    let ghost all = json::trees(items@);
    let ghost want = all.map_values(|v: JsonView| label(node(v)));
    let mut i: usize = 0;
    proof {
        json::lemma_trees(items@);
        assert(pieces::texts(r@) =~= want.take(0));
    }
    while i < items.len()
        invariant
            i <= items@.len(),
            want.len() == items@.len(),
            forall|j: int|
                0 <= j < items@.len() ==> want[j] == label(node((#[trigger] items@[j])@)),
            pieces::texts(r@) == want.take(i as int),
        decreases items.len() - i,
    {
        let ghost before = pieces::texts(r@);
        r.push(label_of(node_of(&items[i])));
        proof {
            assert(want[i as int] == label(node(items@[i as int]@)));
            assert(pieces::texts(r@) =~= before.push(want[i as int]));
            assert(want.take(i + 1) =~= want.take(i as int).push(want[i as int]));
        }
        i = i + 1;
    }
    assert(want.take(items@.len() as int) =~= want);
    r
}

/// The symbols of an answer, in order. A symbol that is not called anything is not
/// looked up.
pub fn symbols_to_fetch(answer: &str) -> (r: Vec<String>)
    ensures
        match json::listed(answer@) {
            Some(items) => pieces::texts(r@) == items.map_values(|v: JsonView| label(node(v))),
            None => r@.len() == 0,
        },
{
    match read_list(answer) {
        None => Vec::new(),
        Some(items) => item_names(&items),
    }
}

/// The source that was found for a symbol of an answer.
pub open spec fn body_at(bodies: Seq<Option<String>>, i: int) -> Option<Seq<char>> {
    if 0 <= i < bodies.len() {
        pieces::opt_text(bodies[i])
    } else {
        None
    }
}

/// How many bytes of source the first symbols show: a body that would go over the
/// budget is left out.
pub open spec fn shown_bytes(bodies: Seq<Option<String>>, n: nat) -> nat
    decreases n,
{
    if n == 0 {
        0
    } else {
        let before = shown_bytes(bodies, (n - 1) as nat);
        match body_at(bodies, n - 1) {
            Some(b) => if before + pieces::byte_len(b) <= SOURCE_BUDGET {
                before + pieces::byte_len(b)
            } else {
                before
            },
            None => before,
        }
    }
}

/// A symbol of an answer, with its source where it was found and fits.
pub open spec fn sourced_text(v: JsonView, bodies: Seq<Option<String>>, i: nat) -> Seq<char> {
    let head = symbol_text(node(v), None);
    match body_at(bodies, i as int) {
        Some(b) => if shown_bytes(bodies, i) + pieces::byte_len(b) <= SOURCE_BUDGET {
            head + "\n\n```\n"@ + b + "\n```"@
        } else {
            head
        },
        None => head,
    }
}

pub open spec fn sourced_texts(items: Seq<JsonView>, bodies: Seq<Option<String>>) -> Seq<
    Seq<char>,
> {
    Seq::new(items.len(), |i: int| sourced_text(items[i], bodies, i as nat))
}

/// What is shown of items with the source of their symbols.
pub open spec fn sourced_items_text(items: Seq<JsonView>, bodies: Seq<Option<String>>) -> Seq<char> {
    if items.len() == 0 {
        "No results."@
    } else {
        pieces::join(sourced_texts(items, bodies), "\n\n---\n\n"@)
    }
}

/// Show items with the source of their symbols, as far as it was found and within the
/// budget.
pub fn fmt_items_with_source(items: &Vec<Json>, bodies: &Vec<Option<String>>) -> (r: String)
    ensures
        r@ == sourced_items_text(json::trees(items@), bodies@),
{
    if items.len() == 0 {
        assert(json::trees(items@) =~= seq![]);
        return "No results.".to_owned();
    }
    let ghost all = json::trees(items@);
    let ghost want = sourced_texts(all, bodies@);
    let mut parts: Vec<String> = Vec::new();
    let mut total: u128 = 0;
    let mut i: usize = 0;
    proof {
        json::lemma_trees(items@);
        assert(pieces::texts(parts@) =~= want.take(0));
    }
    while i < items.len()
        invariant
            i <= items@.len(),
            want.len() == items@.len(),
            forall|j: int|
                0 <= j < items@.len() ==> want[j] == sourced_text(
                    (#[trigger] items@[j])@,
                    bodies@,
                    j as nat,
                ),
            total == shown_bytes(bodies@, i as nat),
            total <= SOURCE_BUDGET,
            pieces::texts(parts@) == want.take(i as int),
        decreases items.len() - i,
    {
        let ghost before = pieces::texts(parts@);
        let mut head = fmt_codegraph_hit(node_of(&items[i]), None);
        if i < bodies.len() {
            match &bodies[i] {
                Some(b) => {
                    let n: u128 = byte_size(b.as_str());
                    if n <= SOURCE_BUDGET - total {
                        total = total + n;
                        head.append("\n\n```\n");
                        head.append(b.as_str());
                        head.append("\n```");
                    }
                },
                None => {},
            }
        }
        parts.push(head);
        proof {
            assert(want[i as int] == sourced_text(items@[i as int]@, bodies@, i as nat));
            assert(pieces::texts(parts@) =~= before.push(want[i as int]));
            assert(want.take(i + 1) =~= want.take(i as int).push(want[i as int]));
        }
        i = i + 1;
    }
    assert(want.take(items@.len() as int) =~= want);
    join_texts(&parts, "\n\n---\n\n")
}

/// Show an answer with the source of its symbols, as far as it was found and within the
/// budget.
pub fn fmt_codegraph_with_source(answer: &str, bodies: &Vec<Option<String>>) -> (r: String)
    ensures
        r@ == (match json::listed(answer@) {
            None => answer@,
            Some(items) => sourced_items_text(items, bodies@),
        }),
{
    match read_list(answer) {
        None => answer.to_owned(),
        Some(items) => fmt_items_with_source(&items, bodies),
    }
}

/// The source that an answer shows stays within the budget.
pub proof fn shown_source_stays_in_budget(bodies: Seq<Option<String>>, n: nat)
    ensures
        shown_bytes(bodies, n) <= SOURCE_BUDGET,
    decreases n,
{
    if n > 0 {
        shown_source_stays_in_budget(bodies, (n - 1) as nat);
    }
}

/// A symbol is called by its qualified name, and by its bare name where it has no other.
pub proof fn qualified_names_come_first(n: JsonView)
    ensures
        json::word(n, "qualifiedName"@).len() > 0 ==> label(n) == json::word(n, "qualifiedName"@),
        json::word(n, "qualifiedName"@).len() == 0 ==> label(n) == json::word(n, "name"@),
{
}

/// A hit is shown with its name first and its signature last, and its kind and its place
/// between them.
pub proof fn symbols_are_shown(v: JsonView, score: Option<Seq<char>>)
    ensures
        ({
            let n = node(v);
            let t = symbol_text(v, score);
            let kind = json::word(n, "kind"@);
            let file = json::word(n, "filePath"@);
            let sig = json::word(n, "signature"@);
            let start = json::count(n, "startLine"@, 0);
            let end = json::count(n, "endLine"@, 0);
            &&& text::starts_with(t, score_mark(score) + label(n))
            &&& sig.len() > 0 ==> text::ends_with(t, "\n"@ + sig)
            &&& kind.len() > 0 ==> text::starts_with(
                t,
                score_mark(score) + label(n) + " ("@ + kind + ")"@,
            )
            &&& kind.len() > 0 && file.len() > 0 && start > 0 && sig.len() == 0 ==> t == score_mark(
                score,
            ) + label(n) + " ("@ + kind + ")"@ + " @ "@ + (file + ":"@ + pieces::decimal(
                start as nat,
            ) + "-"@ + pieces::decimal(end as nat))
            &&& kind.len() > 0 && file.len() > 0 && start == 0 && sig.len() == 0 ==> t == score_mark(
                score,
            ) + label(n) + " ("@ + kind + ")"@ + " @ "@ + file
        }),
{
    let n = node(v);
    let t = symbol_text(v, score);
    let kind = json::word(n, "kind"@);
    let sig = json::word(n, "signature"@);
    let head = score_mark(score) + label(n);
    assert(t.subrange(0, head.len() as int) =~= head);
    if sig.len() > 0 {
        let tail = "\n"@ + sig;
        assert(t.subrange(t.len() - tail.len(), t.len() as int) =~= tail);
    }
    if kind.len() > 0 {
        let more = head + " ("@ + kind + ")"@;
        assert(t.subrange(0, more.len() as int) =~= more);
    }
}

/// How many bytes the first sources have together.
pub open spec fn all_bytes(bodies: Seq<Option<String>>, n: nat) -> nat
    decreases n,
{
    if n == 0 {
        0
    } else {
        all_bytes(bodies, (n - 1) as nat) + (match body_at(bodies, n - 1) {
            Some(b) => pieces::byte_len(b),
            None => 0,
        })
    }
}

proof fn lemma_all_bytes(bodies: Seq<Option<String>>, n: nat)
    ensures
        shown_bytes(bodies, n) <= all_bytes(bodies, n),
    decreases n,
{
    if n > 0 {
        lemma_all_bytes(bodies, (n - 1) as nat);
    }
}

/// A source is shown with its symbol as long as all sources up to it have no more than 12,000
/// bytes; a single source that is larger is not shown.
pub proof fn sources_are_shown_that_fit(
    items: Seq<JsonView>,
    bodies: Seq<Option<String>>,
    i: int,
    body: String,
)
    requires
        0 <= i < items.len(),
        i < bodies.len(),
        bodies[i] == Some(body),
    ensures
        sourced_texts(items, bodies).len() == items.len(),
        all_bytes(bodies, i as nat) + pieces::byte_len(body@) <= 12_000 ==> sourced_texts(
            items,
            bodies,
        )[i] == symbol_text(node(items[i]), None) + "\n\n```\n"@ + body@ + "\n```"@,
        pieces::byte_len(body@) > 12_000 ==> sourced_texts(items, bodies)[i] == symbol_text(
            node(items[i]),
            None,
        ),
{
    lemma_all_bytes(bodies, i as nat);
}

/// A symbol without a source is shown without one.
pub proof fn symbols_without_a_source_are_shown(
    items: Seq<JsonView>,
    bodies: Seq<Option<String>>,
    i: int,
)
    requires
        0 <= i < items.len(),
        i >= bodies.len() || bodies[i] is None,
    ensures
        sourced_texts(items, bodies)[i] == symbol_text(node(items[i]), None),
{
}

/// A symbol without a file is shown without a place, and one without a kind without a kind.
pub proof fn what_is_not_known_is_not_shown(v: JsonView, score: Option<Seq<char>>)
    ensures
        ({
            let n = node(v);
            let t = symbol_text(v, score);
            let kind = json::word(n, "kind"@);
            let file = json::word(n, "filePath"@);
            let sig = json::word(n, "signature"@);
            &&& kind.len() > 0 && file.len() == 0 && sig.len() == 0 ==> t == score_mark(score)
                + label(n) + " ("@ + kind + ")"@
            &&& kind.len() == 0 && file.len() == 0 && sig.len() == 0 ==> t == score_mark(score)
                + label(n)
            &&& kind.len() == 0 && file.len() == 0 && sig.len() > 0 ==> t == score_mark(score)
                + label(n) + "\n"@ + sig
        }),
{
}

/// Every item of an answer is shown, one behind the other.
pub proof fn every_item_is_shown(items: Seq<JsonView>, bodies: Seq<Option<String>>)
    ensures
        items.len() > 0 ==> items_text(items) == pieces::join(
            items.map_values(|v: JsonView| symbol_text(v, None)),
            "\n"@,
        ),
        items.len() > 0 ==> sourced_items_text(items, bodies) == pieces::join(
            sourced_texts(items, bodies),
            "\n\n---\n\n"@,
        ),
        items.len() == 0 ==> items_text(items) == "No results."@ && sourced_items_text(items, bodies)
            == "No results."@,
{
}

} // verus!
