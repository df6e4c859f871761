//! A search over all packages: which indices are asked, what becomes of their answers,
//! and in which order the hits come out.

use vstd::prelude::*;

use crate::hits;
use crate::hits::{is_said, HitOrigin, HitView, Share, UnifiedHit};
use crate::json;
use crate::json::{read_list, Json, JsonView};
use crate::lance::SearchResult;
use crate::pieces;
use crate::pieces::{byte_size, copy_opt};
use crate::query_expansion;
use crate::query_expansion::{ExpandedQuery, ExpansionKind};
use crate::rank;
use crate::rank::{first_places, order_falling, places, Score, ScoreView};
use crate::symbols;
use crate::symbols::{label_of, node_of};
use crate::text::same_text;
use crate::windows;
use crate::windows::kwic_windows;

verus! {

// ---------------------------------------------------------------------------
// Runs
// ---------------------------------------------------------------------------

/// One search of all indices for one text.
#[derive(Debug, Clone)]
pub struct Run {
    pub query: String,
    pub weight: u32,
    pub lexical: bool,
    pub vector: bool,
}

pub ghost struct RunView {
    pub query: Seq<char>,
    pub weight: u32,
    pub lexical: bool,
    pub vector: bool,
}

impl View for Run {
    type V = RunView;

    open spec fn view(&self) -> RunView {
        RunView {
            query: self.query@,
            weight: self.weight,
            lexical: self.lexical,
            vector: self.vector,
        }
    }
}

pub open spec fn run_views(v: Seq<Run>) -> Seq<RunView> {
    v.map_values(|x: Run| x@)
}

/// The run of a variant of the query, by the kind of the variant.
pub open spec fn variant_run(v: query_expansion::VariantView) -> RunView {
    RunView {
        query: v.text,
        weight: hits::VARIANT_WEIGHT,
        lexical: v.kind == ExpansionKind::Lexical,
        vector: v.kind == ExpansionKind::Vector,
    }
}

/// The runs for a query. The query itself is searched in every way and counts twice; each
/// variant is searched in its own way.
pub fn retrieval_runs(query: &str, variants: &Vec<ExpandedQuery>) -> (r: Vec<Run>)
    ensures
        run_views(r@) == seq![
            RunView { query: query@, weight: hits::QUERY_WEIGHT, lexical: true, vector: true },
        ] + query_expansion::variant_views(variants@).map_values(
            |v: query_expansion::VariantView| variant_run(v),
        ),
{
    let mut r: Vec<Run> = Vec::new();
    r.push(
        Run { query: query.to_owned(), weight: hits::QUERY_WEIGHT, lexical: true, vector: true },
    );
    let ghost first = seq![
        RunView { query: query@, weight: hits::QUERY_WEIGHT, lexical: true, vector: true },
    ];
    let ghost vs = query_expansion::variant_views(variants@);
    let ghost more = vs.map_values(|v: query_expansion::VariantView| variant_run(v));
    let mut i: usize = 0;
    assert(run_views(r@) =~= first + more.take(0));
    while i < variants.len()
        invariant
            i <= variants@.len(),
            vs == query_expansion::variant_views(variants@),
            more == vs.map_values(|v: query_expansion::VariantView| variant_run(v)),
            run_views(r@) == first + more.take(i as int),
        decreases variants.len() - i,
    {
        let ghost before = run_views(r@);
        let v = &variants[i];
        let lexical = match v.kind {
            ExpansionKind::Lexical => true,
            ExpansionKind::Vector => false,
        };
        r.push(
            Run { query: v.text.clone(), weight: hits::VARIANT_WEIGHT, lexical, vector: !lexical },
        );
        proof {
            assert(vs[i as int] == variants@[i as int]@);
            assert(r@.last()@ == more[i as int]);
            assert(run_views(r@) =~= before.push(more[i as int]));
            assert(run_views(r@) =~= first + more.take(i + 1));
        }
        i = i + 1;
    }
    assert(more.take(variants@.len() as int) =~= more);
    r
}

// ---------------------------------------------------------------------------
// The plan of a run
// ---------------------------------------------------------------------------

/// A package to search, with the indices that it has.
#[derive(Debug, Clone)]
pub struct SearchSource {
    pub package: String,
    pub code_dir: Option<String>,
    pub docs_dir: Option<String>,
    pub graph_dir: Option<String>,
    /// The model and the dimension of the vectors of the code.
    pub code_model: Option<(String, u32)>,
    /// The model and the dimension of the vectors of the documentation.
    pub docs_model: Option<(String, u32)>,
}

/// The ways to search an index.
#[derive(Debug, Clone, Copy, PartialEq, Eq, Structural)]
pub enum SearchKind {
    Code,
    CodeVector,
    Docs,
    DocsVector,
    Graph,
}

/// One search of one index.
#[derive(Debug, Clone)]
pub struct SearchStep {
    pub package: String,
    pub kind: SearchKind,
    pub dir: String,
}

pub ghost struct StepView {
    pub package: Seq<char>,
    pub kind: SearchKind,
    pub dir: Seq<char>,
}

impl View for SearchStep {
    type V = StepView;

    open spec fn view(&self) -> StepView {
        StepView { package: self.package@, kind: self.kind, dir: self.dir@ }
    }
}

pub open spec fn step_views(v: Seq<SearchStep>) -> Seq<StepView> {
    v.map_values(|x: SearchStep| x@)
}

/// The vector of a query, as far as it matters: its model and its dimension.
pub ghost struct QueryVector {
    pub model: Seq<char>,
    pub dim: nat,
}

/// The vectors of an index can be compared with the vector of the query.
pub open spec fn compatible(q: Option<QueryVector>, info: Option<(String, u32)>) -> bool {
    match (q, info) {
        (Some(v), Some(i)) => v.model == i.0@ && v.dim == i.1,
        _ => false,
    }
}

/// The searches of an index of tables.
pub open spec fn table_steps(
    package: Seq<char>,
    dir: Option<Seq<char>>,
    lexical: bool,
    vector: bool,
    plain: SearchKind,
    by_vector: SearchKind,
) -> Seq<StepView> {
    match dir {
        None => seq![],
        Some(d) => {
            let a = if lexical {
                seq![StepView { package, kind: plain, dir: d }]
            } else {
                seq![]
            };
            let b = if vector {
                seq![StepView { package, kind: by_vector, dir: d }]
            } else {
                seq![]
            };
            a + b
        },
    }
}

/// The searches of a package: its code, its documentation, and its code graph.
pub open spec fn source_steps(s: SearchSource, lexical: bool, q: Option<QueryVector>) -> Seq<
    StepView,
> {
    table_steps(
        s.package@,
        pieces::opt_text(s.code_dir),
        lexical,
        compatible(q, s.code_model),
        SearchKind::Code,
        SearchKind::CodeVector,
    ) + table_steps(
        s.package@,
        pieces::opt_text(s.docs_dir),
        lexical,
        compatible(q, s.docs_model),
        SearchKind::Docs,
        SearchKind::DocsVector,
    ) + table_steps(
        s.package@,
        pieces::opt_text(s.graph_dir),
        lexical,
        false,
        SearchKind::Graph,
        SearchKind::Graph,
    )
}

/// The searches of all packages, in order.
pub open spec fn plan(sources: Seq<SearchSource>, lexical: bool, q: Option<QueryVector>) -> Seq<
    StepView,
>
    decreases sources.len(),
{
    if sources.len() == 0 {
        seq![]
    } else {
        plan(sources.drop_last(), lexical, q) + source_steps(sources.last(), lexical, q)
    }
}

fn is_compatible(query_dim: Option<usize>, model: &Option<String>, info: &Option<(String, u32)>) -> (r:
    bool)
    ensures
        r == compatible(query_vector(query_dim, *model), *info),
{
    match (query_dim, model, info) {
        (Some(n), Some(m), Some(i)) => same_text(m.as_str(), i.0.as_str()) && n == i.1 as usize,
        _ => false,
    }
}

/// The vector of a query, where there is one and its model is known.
pub open spec fn query_vector(query_dim: Option<usize>, model: Option<String>) -> Option<
    QueryVector,
> {
    match (query_dim, model) {
        (Some(n), Some(m)) => Some(QueryVector { model: m@, dim: n as nat }),
        _ => None,
    }
}

fn push_steps(
    steps: &mut Vec<SearchStep>,
    package: &str,
    dir: &Option<String>,
    lexical: bool,
    vector: bool,
    plain: SearchKind,
    by_vector: SearchKind,
)
    ensures
        step_views(final(steps)@) == step_views(old(steps)@) + table_steps(
            package@,
            pieces::opt_text(*dir),
            lexical,
            vector,
            plain,
            by_vector,
        ),
{
    let ghost before = step_views(steps@);
    match dir {
        None => {
            assert(step_views(steps@) =~= before + seq![]);
        },
        Some(d) => {
            if lexical {
                steps.push(SearchStep { package: package.to_owned(), kind: plain, dir: d.clone() });
            }
            if vector {
                steps.push(
                    SearchStep { package: package.to_owned(), kind: by_vector, dir: d.clone() },
                );
            }
            assert(step_views(steps@) =~= before + table_steps(
                package@,
                pieces::opt_text(*dir),
                lexical,
                vector,
                plain,
                by_vector,
            ));
        },
    }
}

fn push_source(
    steps: &mut Vec<SearchStep>,
    s: &SearchSource,
    lexical: bool,
    query_dim: Option<usize>,
    model: &Option<String>,
)
    ensures
        step_views(final(steps)@) == step_views(old(steps)@) + source_steps(
            *s,
            lexical,
            query_vector(query_dim, *model),
        ),
{
    let code = is_compatible(query_dim, model, &s.code_model);
    let docs = is_compatible(query_dim, model, &s.docs_model);
    let ghost before = step_views(steps@);
    push_steps(
        steps,
        s.package.as_str(),
        &s.code_dir,
        lexical,
        code,
        SearchKind::Code,
        SearchKind::CodeVector,
    );
    let ghost one = step_views(steps@);
    push_steps(
        steps,
        s.package.as_str(),
        &s.docs_dir,
        lexical,
        docs,
        SearchKind::Docs,
        SearchKind::DocsVector,
    );
    let ghost two = step_views(steps@);
    push_steps(
        steps,
        s.package.as_str(),
        &s.graph_dir,
        lexical,
        false,
        SearchKind::Graph,
        SearchKind::Graph,
    );
    proof {
        let a = one.skip(before.len() as int);
        let b = two.skip(one.len() as int);
        let c = step_views(steps@).skip(two.len() as int);
        assert(a =~= table_steps(
            s.package@,
            pieces::opt_text(s.code_dir),
            lexical,
            code,
            SearchKind::Code,
            SearchKind::CodeVector,
        ));
        assert(b =~= table_steps(
            s.package@,
            pieces::opt_text(s.docs_dir),
            lexical,
            docs,
            SearchKind::Docs,
            SearchKind::DocsVector,
        ));
        assert(c =~= table_steps(
            s.package@,
            pieces::opt_text(s.graph_dir),
            lexical,
            false,
            SearchKind::Graph,
            SearchKind::Graph,
        ));
        assert(step_views(steps@) =~= before + (a + b + c));
    }
}

/// Plan the searches of a run. Vectors are compared only with vectors of the same model
/// and dimension, and a code graph is searched only by words.
pub fn plan_searches(
    sources: &Vec<SearchSource>,
    lexical: bool,
    query_dim: Option<usize>,
    model: &Option<String>,
) -> (r: Vec<SearchStep>)
    ensures
        step_views(r@) == plan(sources@, lexical, query_vector(query_dim, *model)),
{
    let ghost q = query_vector(query_dim, *model);
    let mut r: Vec<SearchStep> = Vec::new();
    let mut i: usize = 0;
    proof {
        assert(sources@.take(0) =~= seq![]);
        assert(step_views(r@) =~= seq![]);
    }
    while i < sources.len()
        invariant
            i <= sources@.len(),
            q == query_vector(query_dim, *model),
            step_views(r@) == plan(sources@.take(i as int), lexical, q),
        decreases sources.len() - i,
    {
        let s = &sources[i];
        proof {
            assert(sources@.take(i + 1).drop_last() =~= sources@.take(i as int));
            assert(sources@.take(i + 1).last() == *s);
        }
        push_source(&mut r, s, lexical, query_dim, model);
        i = i + 1;
    }
    assert(sources@.take(sources@.len() as int) =~= sources@);
    r
}

/// A search that a package gives rise to: one by vectors only where the vectors of the
/// package can be compared with the query's, and any other only where words are searched.
pub open spec fn planned(s: SearchSource, lexical: bool, q: Option<QueryVector>, x: StepView) -> bool {
    &&& x.package == s.package@
    &&& match x.kind {
        SearchKind::CodeVector => pieces::opt_text(s.code_dir) == Some(x.dir) && compatible(
            q,
            s.code_model,
        ),
        SearchKind::DocsVector => pieces::opt_text(s.docs_dir) == Some(x.dir) && compatible(
            q,
            s.docs_model,
        ),
        SearchKind::Code => pieces::opt_text(s.code_dir) == Some(x.dir) && lexical,
        SearchKind::Docs => pieces::opt_text(s.docs_dir) == Some(x.dir) && lexical,
        SearchKind::Graph => pieces::opt_text(s.graph_dir) == Some(x.dir) && lexical,
    }
}

/// Vectors are compared only with vectors of the same model and dimension: wherever a plan
/// searches by vectors, the index was embedded by the model of the query.
pub proof fn vectors_are_compared_within_a_model(
    sources: Seq<SearchSource>,
    lexical: bool,
    q: Option<QueryVector>,
    i: int,
)
    requires
        0 <= i < plan(sources, lexical, q).len(),
    ensures
        exists|k: int|
            0 <= k < sources.len() && planned(
                #[trigger] sources[k],
                lexical,
                q,
                plan(sources, lexical, q)[i],
            ),
    decreases sources.len(),
{
    let t = sources.drop_last();
    let before = plan(t, lexical, q);
    let x = plan(sources, lexical, q)[i];
    if i < before.len() {
        vectors_are_compared_within_a_model(t, lexical, q, i);
        let k = choose|k: int| 0 <= k < t.len() && planned(#[trigger] t[k], lexical, q, before[i]);
        assert(sources[k] == t[k]);
        assert(planned(sources[k], lexical, q, x));
    } else {
        let s = sources[sources.len() - 1];
        assert(x == source_steps(s, lexical, q)[i - before.len()]);
        assert(planned(s, lexical, q, x));
    }
}

// ---------------------------------------------------------------------------
// Answers
// ---------------------------------------------------------------------------

/// What a search gave.
#[derive(Debug, Clone)]
pub enum StepReply {
    /// Rows of a table.
    Rows(Vec<SearchResult>),
    /// The answer of a code graph, in JSON.
    Answer(String),
    /// Nothing.
    Failed,
}

/// A row of a table as a hit.
pub open spec fn row_hit(
    package: Seq<char>,
    origin: HitOrigin,
    weight: u32,
    r: SearchResult,
    at: nat,
) -> HitView {
    HitView {
        package,
        origin,
        path: r.path@,
        start_line: r.start_line,
        end_line: r.end_line,
        snippet: r.snippet@,
        symbol: pieces::opt_text(r.symbol),
        kind: pieces::opt_text(r.kind),
        signature: pieces::opt_text(r.signature),
        shares: seq![Share { weight, rank: (at + 1) as u64 }],
        expanded_text: None,
        best_window: None,
        best_window_first: false,
        kwic_count: 0,
    }
}

pub open spec fn row_hits(
    package: Seq<char>,
    origin: HitOrigin,
    weight: u32,
    rows: Seq<SearchResult>,
) -> Seq<HitView> {
    Seq::new(rows.len(), |i: int| row_hit(package, origin, weight, rows[i], i as nat))
}

/// A symbol of a code graph as a hit. Its snippet is its signature, or its kind and its
/// name. The graph's own score is not used: it is on another scale than the scores of the
/// tables, and only the rank can be compared.
pub open spec fn symbol_hit(package: Seq<char>, weight: u32, v: JsonView, at: nat) -> HitView {
    let n = symbols::node(v);
    let kind = json::word(n, "kind"@);
    let sig = json::word(n, "signature"@);
    HitView {
        package,
        origin: HitOrigin::Codegraph,
        path: json::word(n, "filePath"@),
        start_line: json::count(n, "startLine"@, 0) as u32,
        end_line: json::count(n, "endLine"@, 0) as u32,
        snippet: if sig.len() > 0 {
            sig
        } else {
            kind + " "@ + symbols::label(n)
        },
        symbol: Some(symbols::label(n)),
        kind: Some(kind),
        signature: Some(sig),
        shares: seq![Share { weight, rank: (at + 1) as u64 }],
        expanded_text: None,
        best_window: None,
        best_window_first: false,
        kwic_count: 0,
    }
}

pub open spec fn symbol_hits(package: Seq<char>, weight: u32, items: Seq<JsonView>) -> Seq<
    HitView,
> {
    Seq::new(items.len(), |i: int| symbol_hit(package, weight, items[i], i as nat))
}

/// The hits of one search.
pub open spec fn reply_hits(step: StepView, reply: StepReply, weight: u32) -> Seq<HitView> {
    match (step.kind, reply) {
        (SearchKind::Graph, StepReply::Answer(t)) => match json::listed(t@) {
            Some(items) => symbol_hits(step.package, weight, items),
            None => seq![],
        },
        (SearchKind::Code, StepReply::Rows(rows)) => row_hits(
            step.package,
            HitOrigin::Code,
            weight,
            rows@,
        ),
        (SearchKind::CodeVector, StepReply::Rows(rows)) => row_hits(
            step.package,
            HitOrigin::Code,
            weight,
            rows@,
        ),
        (SearchKind::Docs, StepReply::Rows(rows)) => row_hits(
            step.package,
            HitOrigin::Docs,
            weight,
            rows@,
        ),
        (SearchKind::DocsVector, StepReply::Rows(rows)) => row_hits(
            step.package,
            HitOrigin::Docs,
            weight,
            rows@,
        ),
        _ => seq![],
    }
}

/// The hits of all searches of a run, in the order of the searches.
pub open spec fn run_hits(steps: Seq<StepView>, replies: Seq<StepReply>, weight: u32) -> Seq<
    HitView,
>
    decreases steps.len(),
{
    if steps.len() == 0 {
        seq![]
    } else {
        run_hits(steps.drop_last(), replies.drop_last(), weight) + reply_hits(
            steps.last(),
            replies.last(),
            weight,
        )
    }
}

fn push_results(
    hits: &mut Vec<UnifiedHit>,
    package: &str,
    origin: HitOrigin,
    weight: u32,
    rows: &Vec<SearchResult>,
)
    ensures
        hits::hit_views(final(hits)@) == hits::hit_views(old(hits)@) + row_hits(
            package@,
            origin,
            weight,
            rows@,
        ),
{
    let ghost before = hits::hit_views(hits@);
    let ghost more = row_hits(package@, origin, weight, rows@);
    let mut i: usize = 0;
    assert(hits::hit_views(hits@) =~= before + more.take(0));
    while i < rows.len()
        invariant
            i <= rows@.len(),
            i <= usize::MAX,
            more == row_hits(package@, origin, weight, rows@),
            hits::hit_views(hits@) == before + more.take(i as int),
        decreases rows.len() - i,
    {
        let r = &rows[i];
        let mut shares: Vec<Share> = Vec::new();
        shares.push(Share { weight, rank: (i + 1) as u64 });
        let ghost sofar = hits::hit_views(hits@);
        hits.push(
            UnifiedHit {
                package: package.to_owned(),
                origin,
                path: r.path.clone(),
                start_line: r.start_line,
                end_line: r.end_line,
                snippet: r.snippet.clone(),
                symbol: copy_opt(&r.symbol),
                kind: copy_opt(&r.kind),
                signature: copy_opt(&r.signature),
                shares,
                expanded_text: None,
                best_window: None,
                best_window_first: false,
                kwic_count: 0,
            },
        );
        proof {
            assert(shares@ =~= seq![Share { weight, rank: (i + 1) as u64 }]);
            assert(hits@.last()@ == more[i as int]);
            assert(hits::hit_views(hits@) =~= sofar.push(more[i as int]));
            assert(hits::hit_views(hits@) =~= before + more.take(i + 1));
        }
        i = i + 1;
    }
    assert(more.take(rows@.len() as int) =~= more);
}

fn symbol_to_hit(package: &str, weight: u32, v: &Json, at: usize) -> (r: UnifiedHit)
    requires
        at < usize::MAX,
    ensures
        r@ == symbol_hit(package@, weight, v@, at as nat),
{
    let n = node_of(v);
    let label = label_of(n);
    let kind = n.word("kind");
    let sig = n.word("signature");
    let snippet = if sig.as_str().is_empty() {
        let mut t = kind.clone();
        t.append(" ");
        t.append(label.as_str());
        t
    } else {
        sig.clone()
    };
    let mut shares: Vec<Share> = Vec::new();
    shares.push(Share { weight, rank: (at + 1) as u64 });
    assert(shares@ =~= seq![Share { weight, rank: (at + 1) as u64 }]);
    UnifiedHit {
        package: package.to_owned(),
        origin: HitOrigin::Codegraph,
        path: n.word("filePath"),
        start_line: #[verifier::truncate]
        (n.count("startLine", 0) as u32),
        end_line: #[verifier::truncate]
        (n.count("endLine", 0) as u32),
        snippet,
        symbol: Some(label),
        kind: Some(kind),
        signature: Some(sig),
        shares,
        expanded_text: None,
        best_window: None,
        best_window_first: false,
        kwic_count: 0,
    }
}

/// Put the symbols of an answer behind the hits that are there.
pub fn push_items(hits: &mut Vec<UnifiedHit>, package: &str, weight: u32, items: &Vec<Json>)
    ensures
        hits::hit_views(final(hits)@) == hits::hit_views(old(hits)@) + symbol_hits(
            package@,
            weight,
            json::trees(items@),
        ),
{
    let ghost before = hits::hit_views(hits@);
    let ghost all = json::trees(items@);
    let ghost more = symbol_hits(package@, weight, all);
    let mut i: usize = 0;
    proof {
        json::lemma_trees(items@);
        assert(hits::hit_views(hits@) =~= before + more.take(0));
    }
    while i < items.len()
        invariant
            i <= items@.len(),
            more.len() == items@.len(),
            forall|j: int|
                0 <= j < items@.len() ==> more[j] == symbol_hit(
                    package@,
                    weight,
                    (#[trigger] items@[j])@,
                    j as nat,
                ),
            hits::hit_views(hits@) == before + more.take(i as int),
        decreases items.len() - i,
    {
        let ghost sofar = hits::hit_views(hits@);
        hits.push(symbol_to_hit(package, weight, &items[i], i));
        proof {
            assert(more[i as int] == symbol_hit(
                package@,
                weight,
                items@[i as int]@,
                i as nat,
            ));
            assert(hits::hit_views(hits@) =~= sofar.push(more[i as int]));
            assert(hits::hit_views(hits@) =~= before + more.take(i + 1));
        }
        i = i + 1;
    }
    assert(more.take(items@.len() as int) =~= more);
}

fn push_codegraph_hits(hits: &mut Vec<UnifiedHit>, package: &str, weight: u32, answer: &str)
    ensures
        hits::hit_views(final(hits)@) == hits::hit_views(old(hits)@) + (match json::listed(
            answer@,
        ) {
            Some(items) => symbol_hits(package@, weight, items),
            None => seq![],
        }),
{
    let ghost before = hits::hit_views(hits@);
    match read_list(answer) {
        None => {
            assert(hits::hit_views(hits@) =~= before + seq![]);
        },
        Some(items) => push_items(hits, package, weight, &items),
    }
}

/// Gather the hits of a run behind the hits of earlier runs. `replies` says what each
/// search of the plan gave.
pub fn collect_query_hits(
    steps: &Vec<SearchStep>,
    replies: &Vec<StepReply>,
    weight: u32,
    hits: &mut Vec<UnifiedHit>,
)
    requires
        steps@.len() == replies@.len(),
    ensures
        hits::hit_views(final(hits)@) == hits::hit_views(old(hits)@) + run_hits(
            step_views(steps@),
            replies@,
            weight,
        ),
{
    let ghost before = hits::hit_views(hits@);
    let ghost sv = step_views(steps@);
    let mut i: usize = 0;
    proof {
        assert(sv.take(0) =~= seq![]);
        assert(hits::hit_views(hits@) =~= before + run_hits(sv.take(0), replies@.take(0), weight));
    }
    while i < steps.len()
        invariant
            i <= steps@.len(),
            steps@.len() == replies@.len(),
            sv == step_views(steps@),
            hits::hit_views(hits@) == before + run_hits(
                sv.take(i as int),
                replies@.take(i as int),
                weight,
            ),
        decreases steps.len() - i,
    {
        let s = &steps[i];
        let ghost sofar = hits::hit_views(hits@);
        proof {
            assert(sv.take(i + 1).drop_last() =~= sv.take(i as int));
            assert(replies@.take(i + 1).drop_last() =~= replies@.take(i as int));
            assert(sv.take(i + 1).last() == s@);
        }
        match &replies[i] {
            StepReply::Rows(rows) => match s.kind {
                SearchKind::Code | SearchKind::CodeVector => {
                    push_results(hits, s.package.as_str(), HitOrigin::Code, weight, rows);
                },
                SearchKind::Docs | SearchKind::DocsVector => {
                    push_results(hits, s.package.as_str(), HitOrigin::Docs, weight, rows);
                },
                SearchKind::Graph => {},
            },
            StepReply::Answer(t) => match s.kind {
                SearchKind::Graph => {
                    push_codegraph_hits(hits, s.package.as_str(), weight, t.as_str());
                },
                _ => {},
            },
            StepReply::Failed => {},
        }
        proof {
            let found = reply_hits(s@, replies@[i as int], weight);
            assert(hits::hit_views(hits@) =~= sofar + found);
            assert(sofar + found =~= before + run_hits(
                sv.take(i + 1),
                replies@.take(i + 1),
                weight,
            ));
        }
        i = i + 1;
    }
    proof {
        assert(sv.take(steps@.len() as int) =~= sv);
        assert(replies@.take(steps@.len() as int) =~= replies@);
    }
}

/// How many hits a search gives: one for each row, and one for each symbol that is listed.
pub open spec fn reply_size(step: StepView, reply: StepReply) -> nat {
    match reply {
        StepReply::Rows(rows) => if step.kind == SearchKind::Graph {
            0
        } else {
            rows@.len()
        },
        StepReply::Answer(t) => if step.kind != SearchKind::Graph {
            0
        } else {
            match json::json_read(t@) {
                Ok(JsonView::List(items)) => items.len(),
                _ => 0,
            }
        },
        StepReply::Failed => 0,
    }
}

/// How many hits the first searches of a run give.
pub open spec fn hits_before(steps: Seq<StepView>, replies: Seq<StepReply>, n: int) -> nat
    decreases n,
{
    if n <= 0 {
        0
    } else {
        hits_before(steps, replies, n - 1) + reply_size(steps[n - 1], replies[n - 1])
    }
}

proof fn lemma_hits_before(steps: Seq<StepView>, replies: Seq<StepReply>, n: int)
    requires
        steps.len() == replies.len(),
        0 <= n < steps.len(),
    ensures
        hits_before(steps.drop_last(), replies.drop_last(), n) == hits_before(steps, replies, n),
    decreases n,
{
    if n > 0 {
        lemma_hits_before(steps, replies, n - 1);
    }
}

/// A run gives one hit for every row and for every listed symbol of its replies, and no
/// other.
pub proof fn every_reply_is_counted(steps: Seq<StepView>, replies: Seq<StepReply>, weight: u32)
    requires
        steps.len() == replies.len(),
    ensures
        run_hits(steps, replies, weight).len() == hits_before(
            steps,
            replies,
            steps.len() as int,
        ),
    decreases steps.len(),
{
    if steps.len() > 0 {
        every_reply_is_counted(steps.drop_last(), replies.drop_last(), weight);
        lemma_hits_before(steps, replies, steps.len() - 1);
    }
}

/// Where the hits of one search stand among those of the run.
proof fn lemma_run_hits(steps: Seq<StepView>, replies: Seq<StepReply>, weight: u32, i: int, k: int)
    requires
        steps.len() == replies.len(),
        0 <= i < steps.len(),
        0 <= k < reply_hits(steps[i], replies[i], weight).len(),
    ensures
        hits_before(steps, replies, i) + k < run_hits(steps, replies, weight).len(),
        run_hits(steps, replies, weight)[hits_before(steps, replies, i) + k] == reply_hits(
            steps[i],
            replies[i],
            weight,
        )[k],
    decreases steps.len(),
{
    let s = steps.drop_last();
    let r = replies.drop_last();
    every_reply_is_counted(s, r, weight);
    lemma_hits_before(steps, replies, i);
    lemma_hits_before(steps, replies, steps.len() - 1);
    if i < steps.len() - 1 {
        lemma_run_hits(s, r, weight, i, k);
        assert(s[i] == steps[i] && r[i] == replies[i]);
    }
}

/// Every row that a table replied with becomes a hit, in its turn: of the package that was
/// searched, with the path, the lines, the text and the symbol of the row. Rows of the
/// documentation become passages, the others code, and the first row of each search ranks
/// first.
pub proof fn every_row_becomes_a_hit(
    steps: Seq<StepView>,
    replies: Seq<StepReply>,
    weight: u32,
    i: int,
    rows: Seq<SearchResult>,
    k: int,
)
    requires
        steps.len() == replies.len(),
        0 <= i < steps.len(),
        steps[i].kind != SearchKind::Graph,
        replies[i] matches StepReply::Rows(v) && v@ == rows,
        0 <= k < rows.len() < u64::MAX,
    ensures
        ({
            let at = hits_before(steps, replies, i) + k;
            let h = run_hits(steps, replies, weight)[at];
            &&& at < run_hits(steps, replies, weight).len()
            &&& h.package == steps[i].package
            &&& h.origin == (if steps[i].kind == SearchKind::Docs || steps[i].kind
                == SearchKind::DocsVector {
                HitOrigin::Docs
            } else {
                HitOrigin::Code
            })
            &&& h.path == rows[k].path@
            &&& h.start_line == rows[k].start_line
            &&& h.end_line == rows[k].end_line
            &&& h.snippet == rows[k].snippet@
            &&& h.symbol == pieces::opt_text(rows[k].symbol)
            &&& h.kind == pieces::opt_text(rows[k].kind)
            &&& h.signature == pieces::opt_text(rows[k].signature)
            &&& h.shares.len() == 1
            &&& h.shares[0].weight == weight
            &&& h.shares[0].rank == k + 1
        }),
{
    lemma_run_hits(steps, replies, weight, i, k);
}

/// Every symbol that a code graph listed becomes a hit, in its turn: of the package that was
/// searched, with the file, the lines, the name, the kind and the signature of the symbol.
pub proof fn every_symbol_becomes_a_hit(
    steps: Seq<StepView>,
    replies: Seq<StepReply>,
    weight: u32,
    i: int,
    items: Seq<JsonView>,
    k: int,
)
    requires
        steps.len() == replies.len(),
        0 <= i < steps.len(),
        steps[i].kind == SearchKind::Graph,
        replies[i] matches StepReply::Answer(t) && json::json_read(t@) == Ok::<
            JsonView,
            Seq<char>,
        >(JsonView::List(items)),
        0 <= k < items.len() < u64::MAX,
    ensures
        ({
            let at = hits_before(steps, replies, i) + k;
            let h = run_hits(steps, replies, weight)[at];
            let n = symbols::node(items[k]);
            &&& at < run_hits(steps, replies, weight).len()
            &&& h.package == steps[i].package
            &&& h.origin == HitOrigin::Codegraph
            &&& h.path == json::word(n, "filePath"@)
            &&& json::count(n, "startLine"@, 0) <= u32::MAX ==> h.start_line == json::count(
                n,
                "startLine"@,
                0,
            )
            &&& json::count(n, "endLine"@, 0) <= u32::MAX ==> h.end_line == json::count(
                n,
                "endLine"@,
                0,
            )
            &&& h.symbol == Some(symbols::label(n))
            &&& h.kind == Some(json::word(n, "kind"@))
            &&& h.signature == Some(json::word(n, "signature"@))
            &&& h.signature->0.len() > 0 ==> h.snippet == h.signature->0
            &&& h.shares.len() == 1
            &&& h.shares[0].weight == weight
            &&& h.shares[0].rank == k + 1
        }),
{
    lemma_run_hits(steps, replies, weight, i, k);
}

// ---------------------------------------------------------------------------
// From small to big
// ---------------------------------------------------------------------------

/// A hit whose whole symbol is worth fetching: a passage is as large as it gets.
pub fn is_expandable(h: &UnifiedHit) -> (r: bool)
    ensures
        r == (h@.origin != HitOrigin::Docs),
{
    h.origin != HitOrigin::Docs
}

/// A hit whose symbol is looked up by its name: the code graph knows the symbol and not its
/// lines.
pub open spec fn looked_up_by_name(h: HitView) -> bool {
    h.origin == HitOrigin::Codegraph && h.start_line == 0 && hits::said(h.symbol)
}

/// Whether the symbol of a hit is looked up by its name.
pub fn is_looked_up_by_name(h: &UnifiedHit) -> (r: bool)
    ensures
        r == looked_up_by_name(h@),
{
    h.origin == HitOrigin::Codegraph && h.start_line == 0 && is_said(&h.symbol)
}

/// The symbol of a hit: the one at its place where its line is known, else the one of its
/// name where the hit comes from the code graph.
pub open spec fn whole_symbol(
    h: HitView,
    at_place: Option<Seq<char>>,
    by_name: Option<Seq<char>>,
) -> Option<Seq<char>> {
    if h.start_line > 0 {
        at_place
    } else if looked_up_by_name(h) {
        by_name
    } else {
        None
    }
}

/// A hit after its symbol was looked up. What was found is kept where it is longer than
/// the snippet.
pub open spec fn expanded(
    h: HitView,
    at_place: Option<Seq<char>>,
    by_name: Option<Seq<char>>,
) -> HitView {
    match whole_symbol(h, at_place, by_name) {
        Some(body) => if h.origin != HitOrigin::Docs && pieces::byte_len(body) > pieces::byte_len(
            h.snippet,
        ) {
            HitView { expanded_text: Some(body), ..h }
        } else {
            h
        },
        None => h,
    }
}

/// Give a hit the whole symbol that it is part of: the code found at its place, or the
/// code of the one symbol that has its name.
pub fn expand_hit(h: &mut UnifiedHit, at_place: &Option<String>, by_name: &Option<String>)
    ensures
        final(h)@ == expanded(old(h)@, pieces::opt_text(*at_place), pieces::opt_text(*by_name)),
{
    if h.origin == HitOrigin::Docs {
        return;
    }
    let body = if h.start_line > 0 {
        copy_opt(at_place)
    } else if is_looked_up_by_name(h) {
        copy_opt(by_name)
    } else {
        None
    };
    match body {
        Some(b) => {
            if byte_size(b.as_str()) > byte_size(h.snippet.as_str()) {
                h.expanded_text = Some(b);
            }
        },
        None => {},
    }
}

// ---------------------------------------------------------------------------
// What is scored
// ---------------------------------------------------------------------------

/// The words before a scored text: the kind and the name of the symbol.
pub open spec fn prefix(h: HitView) -> Seq<char> {
    if hits::said(h.kind) && hits::said(h.symbol) {
        h.kind->0 + " "@ + h.symbol->0
    } else if hits::said(h.kind) {
        h.kind->0
    } else if hits::said(h.symbol) {
        h.symbol->0
    } else {
        seq![]
    }
}

/// The words before a scored text.
pub fn hit_kind_symbol_prefix(h: &UnifiedHit) -> (r: String)
    ensures
        r@ == prefix(h@),
{
    let mut r = String::new();
    match &h.kind {
        Some(k) => {
            r.append(k.as_str());
        },
        None => {},
    }
    match &h.symbol {
        Some(s) => {
            if !s.as_str().is_empty() {
                if !r.as_str().is_empty() {
                    r.append(" ");
                }
                r.append(s.as_str());
            }
        },
        None => {},
    }
    assert(r@ =~= prefix(h@));
    r
}

/// The text that is scored for a body of a hit.
pub open spec fn candidate_text(h: HitView, body: Seq<char>) -> Seq<char> {
    if prefix(h).len() == 0 {
        body
    } else {
        prefix(h) + ": "@ + body
    }
}

/// The text that is scored for a body of a hit.
pub fn hit_candidate_text_with_body(h: &UnifiedHit, body: &str) -> (r: String)
    ensures
        r@ == candidate_text(h@, body@),
{
    let mut r = hit_kind_symbol_prefix(h);
    if r.as_str().is_empty() {
        return body.to_owned();
    }
    r.append(": ");
    r.append(body);
    r
}

/// What the first pass scores: the snippet, else the signature, else the path.
pub open spec fn first_body(h: HitView) -> Seq<char> {
    if h.snippet.len() > 0 {
        h.snippet
    } else if hits::said(h.signature) {
        h.signature->0
    } else {
        h.path
    }
}

/// The text that the first pass scores.
pub fn first_pass_text(h: &UnifiedHit) -> (r: String)
    ensures
        r@ == candidate_text(h@, first_body(h@)),
{
    if !h.snippet.as_str().is_empty() {
        return hit_candidate_text_with_body(h, h.snippet.as_str());
    }
    match &h.signature {
        Some(s) => {
            if !s.as_str().is_empty() {
                return hit_candidate_text_with_body(h, s.as_str());
            }
        },
        None => {},
    }
    hit_candidate_text_with_body(h, h.path.as_str())
}

/// What the second pass cuts into windows: the whole symbol, else the snippet, else the
/// path.
pub open spec fn second_body(h: HitView) -> Seq<char> {
    if hits::said(h.expanded_text) {
        h.expanded_text->0
    } else if h.snippet.len() > 0 {
        h.snippet
    } else {
        h.path
    }
}

fn body_of(h: &UnifiedHit) -> (r: &str)
    ensures
        r@ == second_body(h@),
{
    match &h.expanded_text {
        Some(t) => {
            if !t.as_str().is_empty() {
                return t.as_str();
            }
        },
        None => {},
    }
    if !h.snippet.as_str().is_empty() {
        h.snippet.as_str()
    } else {
        h.path.as_str()
    }
}

/// The texts that the second pass scores, one for each window.
pub fn second_pass_texts(h: &UnifiedHit) -> (r: Vec<String>)
    ensures
        pieces::texts(r@) == windows::window_texts(second_body(h@)).map_values(
            |w: Seq<char>| candidate_text(h@, w),
        ),
        r@.len() > 0,
{
    let ws = kwic_windows(body_of(h));
    let ghost all = windows::window_texts(second_body(h@));
    let ghost want = all.map_values(|w: Seq<char>| candidate_text(h@, w));
    let mut r: Vec<String> = Vec::new();
    let mut i: usize = 0;
    proof {
        assert(all.len() == ws@.len()) by {
            assert(pieces::texts(ws@).len() == ws@.len());
        }
        assert(pieces::texts(r@) =~= want.take(0));
    }
    while i < ws.len()
        invariant
            i <= ws@.len(),
            all == pieces::texts(ws@),
            want == all.map_values(|w: Seq<char>| candidate_text(h@, w)),
            pieces::texts(r@) == want.take(i as int),
        decreases ws.len() - i,
    {
        let ghost before = pieces::texts(r@);
        r.push(hit_candidate_text_with_body(h, ws[i].as_str()));
        proof {
            assert(want[i as int] == candidate_text(h@, ws@[i as int]@));
            assert(pieces::texts(r@) =~= before.push(want[i as int]));
            assert(want.take(i + 1) =~= want.take(i as int).push(want[i as int]));
        }
        i = i + 1;
    }
    assert(want.take(ws@.len() as int) =~= want);
    assert(pieces::texts(r@).len() == r@.len());
    r
}

// ---------------------------------------------------------------------------
// Two passes
// ---------------------------------------------------------------------------

/// The fewest hits that the second pass looks at.
pub const PASS1_K: usize = 5;

/// How many hits the second pass looks at: as many as are shown, and no fewer than five.
pub open spec fn budget(limit: nat) -> nat {
    if limit > PASS1_K {
        limit
    } else {
        PASS1_K as nat
    }
}

/// The places in the pool, best first by the first pass.
pub open spec fn first_order(scores: Seq<ScoreView>) -> Seq<int> {
    rank::falling(rank::score_keys(scores))
}

fn keys_of(scores: &Vec<Score>) -> (r: Vec<u64>)
    ensures
        r@ == rank::score_keys(rank::score_views(scores@)),
{
    let mut r: Vec<u64> = Vec::new();
    let ghost want = rank::score_keys(rank::score_views(scores@));
    let mut i: usize = 0;
    while i < scores.len()
        invariant
            i <= scores@.len(),
            want == rank::score_keys(rank::score_views(scores@)),
            r@ == want.take(i as int),
        decreases scores.len() - i,
    {
        r.push(scores[i].key);
        i = i + 1;
        assert(want[i - 1] == scores@[i - 1].key);
        assert(r@ =~= want.take(i as int));
    }
    assert(want.take(scores@.len() as int) =~= want);
    r
}

/// The places in the pool that the second pass looks at, best first.
pub fn promoted(first: &Vec<Score>, limit: usize) -> (r: Vec<usize>)
    ensures
        places(r@) == hits::at_most(
            first_order(rank::score_views(first@)),
            budget(limit as nat),
        ),
        forall|i: int| 0 <= i < r@.len() ==> #[trigger] r@[i] < first@.len(),
{
    let keys = keys_of(first);
    let order = order_falling(&keys);
    let n: usize = if limit > PASS1_K {
        limit
    } else {
        PASS1_K
    };
    let r = first_places(&order, n);
    proof {
        let all = first_order(rank::score_views(first@));
        assert(all.len() == order@.len()) by {
            assert(places(order@).len() == order@.len());
        }
        assert(all.take(all.len() as int) =~= all);
        assert forall|i: int| 0 <= i < r@.len() implies #[trigger] r@[i] < first@.len() by {
            assert(r@[i] == order@[i]);
        }
    }
    r
}

/// The first of the largest keys.
pub open spec fn best_of(keys: Seq<u64>) -> int
    decreases keys.len(),
{
    if keys.len() <= 1 {
        0
    } else {
        let b = best_of(keys.drop_last());
        if keys.last() > keys[b] {
            keys.len() - 1
        } else {
            b
        }
    }
}

/// The window that scored best; of several, the first.
pub fn best_window(scores: &Vec<Score>) -> (r: usize)
    requires
        scores@.len() > 0,
    ensures
        r == best_of(rank::score_keys(rank::score_views(scores@))),
        r < scores@.len(),
{
    let ghost keys = rank::score_keys(rank::score_views(scores@));
    let mut b: usize = 0;
    let mut i: usize = 1;
    proof {
        assert(keys.take(1).len() == 1);
    }
    while i < scores.len()
        invariant
            1 <= i <= scores@.len(),
            b < i,
            keys == rank::score_keys(rank::score_views(scores@)),
            b == best_of(keys.take(i as int)),
        decreases scores.len() - i,
    {
        proof {
            assert(keys.take(i + 1).drop_last() =~= keys.take(i as int));
            assert(keys.take(i + 1).last() == scores@[i as int].key);
            assert(keys.take(i + 1)[b as int] == scores@[b as int].key);
        }
        if scores[i].key > scores[b].key {
            b = i;
        }
        i = i + 1;
    }
    assert(keys.take(scores@.len() as int) =~= keys);
    b
}

/// The best window scores no less than any other, and more than any before it.
pub proof fn the_best_window_wins(keys: Seq<u64>)
    requires
        keys.len() > 0,
    ensures
        0 <= best_of(keys) < keys.len(),
        forall|i: int| 0 <= i < keys.len() ==> #[trigger] keys[i] <= keys[best_of(keys)],
        forall|i: int| 0 <= i < best_of(keys) ==> #[trigger] keys[i] < keys[best_of(keys)],
    decreases keys.len(),
{
    if keys.len() > 1 {
        let t = keys.drop_last();
        the_best_window_wins(t);
        assert forall|i: int| 0 <= i < keys.len() implies #[trigger] keys[i] <= keys[best_of(
            keys,
        )] by {
            if i < t.len() {
                assert(t[i] == keys[i]);
            }
        }
        assert forall|i: int| 0 <= i < best_of(keys) implies #[trigger] keys[i] < keys[best_of(
            keys,
        )] by {
            assert(t[i] == keys[i]);
        }
    }
}

/// A hit with its best window.
pub open spec fn windowed(h: HitView, at: nat) -> HitView {
    let ws = windows::window_texts(second_body(h));
    HitView {
        best_window: Some(ws[at as int]),
        best_window_first: at == 0,
        kwic_count: ws.len() as usize,
        ..h
    }
}

/// Note which window of a hit fits best.
pub fn note_window(h: &mut UnifiedHit, at: usize)
    requires
        at < windows::window_texts(second_body(old(h)@)).len(),
    ensures
        final(h)@ == windowed(old(h)@, at as nat),
{
    let ghost before = h@;
    let ws = kwic_windows(body_of(h));
    assert(pieces::texts(ws@).len() == ws@.len());
    let best = ws[at].clone();
    assert(pieces::texts(ws@)[at as int] == ws@[at as int]@);
    h.best_window = Some(best);
    h.best_window_first = at == 0;
    h.kwic_count = ws.len();
}

/// The place of a hit in the pool, and its score.
pub ghost struct Placed {
    pub place: int,
    pub score: ScoreView,
}

/// What the second pass puts first: the hits that it looked at, by their best windows.
pub open spec fn second_places(top: Seq<int>, best: Seq<ScoreView>) -> Seq<Placed> {
    let order = rank::falling(rank::score_keys(best));
    Seq::new(best.len(), |i: int| Placed { place: top[order[i]], score: best[order[i]] })
}

/// The rest of the pool, in the order of the first pass.
pub open spec fn rest_places(order: Seq<int>, first: Seq<ScoreView>, from: nat) -> Seq<Placed> {
    Seq::new(
        (order.len() - from) as nat,
        |i: int| Placed { place: order[from + i], score: first[order[from + i]] },
    )
}

/// The order of the pool after both passes.
pub open spec fn final_places(first: Seq<ScoreView>, best: Seq<ScoreView>) -> Seq<Placed> {
    let order = first_order(first);
    second_places(order.take(best.len() as int), best) + rest_places(order, first, best.len())
}

/// The place of a hit in the pool, and its score.
#[derive(Debug, Clone)]
pub struct ScoredPlace {
    pub place: usize,
    pub score: Score,
}

impl View for ScoredPlace {
    type V = Placed;

    open spec fn view(&self) -> Placed {
        Placed { place: self.place as int, score: self.score@ }
    }
}

pub open spec fn placed_views(v: Seq<ScoredPlace>) -> Seq<Placed> {
    v.map_values(|x: ScoredPlace| x@)
}

/// Order the pool after both passes: the hits that the second pass looked at by the score
/// of their best window, then the others by the first pass, no more than `limit` in all.
/// `first` scores the hits of the pool, and `best` the promoted ones.
pub fn final_ranking(first: &Vec<Score>, best: &Vec<Score>, limit: usize) -> (r: Vec<
    ScoredPlace,
>)
    requires
        best@.len() == hits::at_most(
            first_order(rank::score_views(first@)),
            budget(limit as nat),
        ).len(),
    ensures
        placed_views(r@) == hits::at_most(
            final_places(rank::score_views(first@), rank::score_views(best@)),
            limit as nat,
        ),
        forall|i: int| 0 <= i < r@.len() ==> (#[trigger] r@[i]).place < first@.len(),
{
    let ghost fs = rank::score_views(first@);
    let ghost bs = rank::score_views(best@);
    let keys = keys_of(first);
    let order = order_falling(&keys);
    let ghost os = first_order(fs);
    let best_keys = keys_of(best);
    let by_best = order_falling(&best_keys);
    let ghost bo = rank::falling(rank::score_keys(bs));
    proof {
        rank::falling_is_in_order(keys@);
        rank::falling_is_in_order(best_keys@);
        assert(places(order@).len() == order@.len());
        assert(places(by_best@).len() == by_best@.len());
    }
    let ghost all = final_places(fs, bs);
    let mut r: Vec<ScoredPlace> = Vec::new();
    let mut i: usize = 0;
    assert(placed_views(r@) =~= all.take(0));
    assert(all.len() == order@.len());
    while i < order.len() && i < limit
        invariant
            i <= order@.len(),
            i <= limit,
            order@.len() == first@.len(),
            best@.len() <= order@.len(),
            by_best@.len() == best@.len(),
            all.len() == order@.len(),
            fs == rank::score_views(first@),
            bs == rank::score_views(best@),
            os == places(order@),
            os == first_order(fs),
            bo == places(by_best@),
            bo == rank::falling(rank::score_keys(bs)),
            all == final_places(fs, bs),
            forall|j: int| 0 <= j < order@.len() ==> #[trigger] order@[j] < first@.len(),
            forall|j: int| 0 <= j < by_best@.len() ==> #[trigger] by_best@[j] < best@.len(),
            placed_views(r@) == all.take(i as int),
            r@.len() == i,
            forall|j: int| 0 <= j < r@.len() ==> (#[trigger] r@[j]).place < first@.len(),
        decreases order.len() - i,
    {
        let ghost before = placed_views(r@);
        if i < best.len() {
            let t: usize = by_best[i];
            assert(bo[i as int] == t);
            assert(os.take(best@.len() as int)[t as int] == order@[t as int]);
            r.push(ScoredPlace { place: order[t], score: best[t].copy() });
        } else {
            let p: usize = order[i];
            assert(os[i as int] == p);
            r.push(ScoredPlace { place: p, score: first[p].copy() });
        }
        proof {
            assert(r@.last()@ == all[i as int]);
            assert(placed_views(r@) =~= before.push(all[i as int]));
            assert(all.take(i + 1) =~= all.take(i as int).push(all[i as int]));
        }
        i = i + 1;
    }
    assert(all.take(all.len() as int) =~= all);
    r
}

/// The first of the pool as they stand, where no model scores them.
pub fn unranked(pool_scores: &Vec<Score>, limit: usize) -> (r: Vec<ScoredPlace>)
    ensures
        r@.len() == (if limit < pool_scores@.len() {
            limit as nat
        } else {
            pool_scores@.len()
        }),
        forall|i: int|
            0 <= i < r@.len() ==> (#[trigger] r@[i])@ == (Placed {
                place: i,
                score: pool_scores@[i]@,
            }),
{
    let mut r: Vec<ScoredPlace> = Vec::new();
    let mut i: usize = 0;
    while i < pool_scores.len() && i < limit
        invariant
            i <= pool_scores@.len(),
            i <= limit,
            r@.len() == i,
            forall|j: int|
                0 <= j < i ==> (#[trigger] r@[j])@ == (Placed {
                    place: j,
                    score: pool_scores@[j]@,
                }),
        decreases pool_scores.len() - i,
    {
        r.push(ScoredPlace { place: i, score: pool_scores[i].copy() });
        i = i + 1;
    }
    r
}

/// The least key of a score that is shown: that of the score 0.10.
pub const FLOOR_KEY: u64 = 0xBDCC_CCCD;

/// The hits at or above the floor, in order.
pub open spec fn above_floor(ps: Seq<Placed>) -> Seq<Placed>
    decreases ps.len(),
{
    if ps.len() == 0 {
        seq![]
    } else {
        let before = above_floor(ps.drop_last());
        if ps.last().score.key >= FLOOR_KEY {
            before.push(ps.last())
        } else {
            before
        }
    }
}

/// Drop the hits that the model thinks irrelevant.
pub fn relevant(ranked: &Vec<ScoredPlace>, n: usize) -> (r: Vec<ScoredPlace>)
    requires
        forall|i: int| 0 <= i < ranked@.len() ==> (#[trigger] ranked@[i]).place < n,
    ensures
        placed_views(r@) == above_floor(placed_views(ranked@)),
        forall|i: int| 0 <= i < r@.len() ==> (#[trigger] r@[i]).place < n,
{
    let ghost all = placed_views(ranked@);
    let mut r: Vec<ScoredPlace> = Vec::new();
    let mut i: usize = 0;
    proof {
        assert(all.take(0) =~= seq![]);
        assert(placed_views(r@) =~= seq![]);
    }
    while i < ranked.len()
        invariant
            i <= ranked@.len(),
            all == placed_views(ranked@),
            forall|j: int| 0 <= j < ranked@.len() ==> (#[trigger] ranked@[j]).place < n,
            forall|j: int| 0 <= j < r@.len() ==> (#[trigger] r@[j]).place < n,
            placed_views(r@) == above_floor(all.take(i as int)),
        decreases ranked.len() - i,
    {
        proof {
            assert(all.take(i + 1).drop_last() =~= all.take(i as int));
            assert(all.take(i + 1).last() == ranked@[i as int]@);
        }
        let ghost before = placed_views(r@);
        if ranked[i].score.key >= FLOOR_KEY {
            r.push(ScoredPlace { place: ranked[i].place, score: ranked[i].score.copy() });
            assert(placed_views(r@) =~= before.push(ranked@[i as int]@));
        }
        i = i + 1;
    }
    assert(all.take(ranked@.len() as int) =~= all);
    r
}

/// Every hit of the pool has one place in the final order: the passes neither lose a hit
/// nor show one twice.
pub proof fn ranking_is_a_permutation(first: Seq<ScoreView>, best: Seq<ScoreView>)
    requires
        best.len() <= first.len(),
    ensures
        final_places(first, best).len() == first.len(),
        forall|i: int|
            0 <= i < first.len() ==> 0 <= (#[trigger] final_places(first, best)[i]).place
                < first.len(),
        forall|i: int, j: int|
            0 <= i < j < first.len() ==> (#[trigger] final_places(first, best)[i]).place != (
            #[trigger] final_places(first, best)[j]).place,
{
    let keys = rank::score_keys(first);
    let bkeys = rank::score_keys(best);
    rank::falling_is_in_order(keys);
    rank::falling_is_in_order(bkeys);
    let order = first_order(first);
    let bo = rank::falling(bkeys);
    let all = final_places(first, best);
    let n = best.len();
    let a = second_places(order.take(n as int), best);
    let b = rest_places(order, first, n);
    assert forall|i: int| 0 <= i < first.len() implies (#[trigger] all[i]).place == (if i < n {
        order[bo[i]]
    } else {
        order[i]
    }) by {
        if i < n {
            assert(all[i] == a[i]);
            assert(order.take(n as int)[bo[i]] == order[bo[i]]);
        } else {
            assert(all[i] == b[i - n]);
        }
    }
    assert forall|i: int, j: int| 0 <= i < j < first.len() implies (#[trigger] all[i]).place != (
    #[trigger] all[j]).place by {
        let x = if i < n {
            bo[i]
        } else {
            i
        };
        let y = if j < n {
            bo[j]
        } else {
            j
        };
        assert(all[i].place == order[x] && all[j].place == order[y]);
        assert(x != y) by {
            if j < n {
                assert(bo[i] != bo[j]);
            }
        }
        if x < y {
            assert(order[x] != order[y]);
        } else {
            assert(order[y] != order[x]);
        }
    }
}

/// No hit below the floor is shown.
pub proof fn nothing_below_the_floor_is_shown(ps: Seq<Placed>)
    ensures
        forall|i: int|
            0 <= i < above_floor(ps).len() ==> (#[trigger] above_floor(ps)[i]).score.key
                >= FLOOR_KEY,
        above_floor(ps).len() <= ps.len(),
    decreases ps.len(),
{
    if ps.len() > 0 {
        nothing_below_the_floor_is_shown(ps.drop_last());
    }
}

// ---------------------------------------------------------------------------
// What a search comes to
// ---------------------------------------------------------------------------

/// Every index of every package is searched: its code, its documentation and its code graph
/// by words, and its tables by vectors wherever they were embedded by the model of the query.
pub proof fn every_index_is_searched(
    sources: Seq<SearchSource>,
    lexical: bool,
    q: Option<QueryVector>,
    k: int,
)
    requires
        0 <= k < sources.len(),
    ensures
        ({
            let s = sources[k];
            let p = plan(sources, lexical, q);
            let step = |kind: SearchKind, dir: Seq<char>| StepView { package: s.package@, kind, dir };
            &&& lexical && s.code_dir is Some ==> p.contains(
                step(SearchKind::Code, s.code_dir->0@),
            )
            &&& lexical && s.docs_dir is Some ==> p.contains(
                step(SearchKind::Docs, s.docs_dir->0@),
            )
            &&& lexical && s.graph_dir is Some ==> p.contains(
                step(SearchKind::Graph, s.graph_dir->0@),
            )
            &&& s.code_dir is Some && q is Some && s.code_model is Some && q->0.model
                == (s.code_model->0).0@ && q->0.dim == (s.code_model->0).1 ==> p.contains(
                step(SearchKind::CodeVector, s.code_dir->0@),
            )
            &&& s.docs_dir is Some && q is Some && s.docs_model is Some && q->0.model
                == (s.docs_model->0).0@ && q->0.dim == (s.docs_model->0).1 ==> p.contains(
                step(SearchKind::DocsVector, s.docs_dir->0@),
            )
        }),
    decreases sources.len(),
{
    let s = sources[k];
    let t = sources.drop_last();
    let before = plan(t, lexical, q);
    let more = source_steps(sources.last(), lexical, q);
    let p = plan(sources, lexical, q);
    if k < t.len() {
        every_index_is_searched(t, lexical, q, k);
        assert forall|x: StepView| before.contains(x) implies p.contains(x) by {
            let i = choose|i: int| 0 <= i < before.len() && before[i] == x;
            assert(p[i] == x);
        }
    } else {
        assert forall|x: StepView| more.contains(x) implies p.contains(x) by {
            let i = choose|i: int| 0 <= i < more.len() && more[i] == x;
            assert(p[before.len() + i] == x);
        }
        let a = table_steps(
            s.package@,
            pieces::opt_text(s.code_dir),
            lexical,
            compatible(q, s.code_model),
            SearchKind::Code,
            SearchKind::CodeVector,
        );
        let b = table_steps(
            s.package@,
            pieces::opt_text(s.docs_dir),
            lexical,
            compatible(q, s.docs_model),
            SearchKind::Docs,
            SearchKind::DocsVector,
        );
        let c = table_steps(
            s.package@,
            pieces::opt_text(s.graph_dir),
            lexical,
            false,
            SearchKind::Graph,
            SearchKind::Graph,
        );
        assert(more =~= a + b + c);
        assert forall|x: StepView| a.contains(x) implies more.contains(x) by {
            let i = choose|i: int| 0 <= i < a.len() && a[i] == x;
            assert(more[i] == x);
        }
        assert forall|x: StepView| b.contains(x) implies more.contains(x) by {
            let i = choose|i: int| 0 <= i < b.len() && b[i] == x;
            assert(more[a.len() + i] == x);
        }
        assert forall|x: StepView| c.contains(x) implies more.contains(x) by {
            let i = choose|i: int| 0 <= i < c.len() && c[i] == x;
            assert(more[a.len() + b.len() + i] == x);
        }
        if s.code_dir is Some {
            if lexical {
                assert(a[0].kind == SearchKind::Code && a.contains(a[0]));
            }
            if compatible(q, s.code_model) {
                assert(a.last().kind == SearchKind::CodeVector && a.contains(a[a.len() - 1]));
            }
        }
        if s.docs_dir is Some {
            if lexical {
                assert(b[0].kind == SearchKind::Docs && b.contains(b[0]));
            }
            if compatible(q, s.docs_model) {
                assert(b.last().kind == SearchKind::DocsVector && b.contains(b[b.len() - 1]));
            }
        }
        if s.graph_dir is Some && lexical {
            assert(c[0].kind == SearchKind::Graph && c.contains(c[0]));
        }
    }
}

/// A package is searched at most five times: by words for each of its three indices, and by
/// vectors for each of its two tables.
pub proof fn no_index_is_searched_twice(sources: Seq<SearchSource>, lexical: bool, q: Option<QueryVector>)
    ensures
        plan(sources, lexical, q).len() <= 5 * sources.len(),
        q is None ==> plan(sources, lexical, q).len() <= 3 * sources.len(),
        !lexical && q is None ==> plan(sources, lexical, q).len() == 0,
    decreases sources.len(),
{
    if sources.len() > 0 {
        no_index_is_searched_twice(sources.drop_last(), lexical, q);
    }
}

/// A hit keeps everything but its whole symbol, which it gets only where one was found that
/// says more than the snippet. A passage keeps its text.
pub proof fn a_hit_grows_only_by_its_symbol(
    h: HitView,
    at_place: Option<Seq<char>>,
    by_name: Option<Seq<char>>,
)
    ensures
        ({
            let e = expanded(h, at_place, by_name);
            &&& e == HitView { expanded_text: e.expanded_text, ..h }
            &&& h.origin == HitOrigin::Docs ==> e == h
            &&& e.expanded_text != h.expanded_text ==> e.expanded_text is Some && pieces::byte_len(
                e.expanded_text->0,
            ) > pieces::byte_len(h.snippet) && (e.expanded_text == at_place || e.expanded_text
                == by_name)
            &&& h.origin != HitOrigin::Docs && h.start_line > 0 && at_place is Some
                && pieces::byte_len(at_place->0) > pieces::byte_len(h.snippet)
                ==> e.expanded_text == at_place
            &&& h.origin == HitOrigin::Codegraph && h.start_line == 0 && hits::said(h.symbol)
                && by_name is Some && pieces::byte_len(by_name->0) > pieces::byte_len(h.snippet)
                ==> e.expanded_text == by_name
        }),
{
}

/// What is scored ends in the body that is scored, and before it stand the kind and the name
/// of the symbol where they are known.
pub proof fn the_body_is_scored(h: HitView, body: Seq<char>)
    ensures
        candidate_text(h, body).len() >= body.len(),
        candidate_text(h, body).skip(candidate_text(h, body).len() - body.len()) == body,
        !hits::said(h.kind) && !hits::said(h.symbol) ==> candidate_text(h, body) == body,
        hits::said(h.kind) && hits::said(h.symbol) ==> candidate_text(h, body) == h.kind->0 + " "@
            + h.symbol->0 + ": "@ + body,
        hits::said(h.kind) && !hits::said(h.symbol) ==> candidate_text(h, body) == h.kind->0 + ": "@
            + body,
        !hits::said(h.kind) && hits::said(h.symbol) ==> candidate_text(h, body) == h.symbol->0
            + ": "@ + body,
{
    reveal_strlit(" ");
    let c = candidate_text(h, body);
    assert(c.skip(c.len() - body.len()) =~= body);
}

/// What is scored of a hit is what the hit says: in the first pass its snippet, in the second
/// its whole symbol where that is known, and something else only where there is no text.
pub proof fn what_a_hit_says_is_scored(h: HitView)
    ensures
        h.snippet.len() > 0 ==> first_body(h) == h.snippet,
        h.snippet.len() == 0 && hits::said(h.signature) ==> first_body(h) == h.signature->0,
        h.snippet.len() == 0 && !hits::said(h.signature) ==> first_body(h) == h.path,
        hits::said(h.expanded_text) ==> second_body(h) == h.expanded_text->0,
        !hits::said(h.expanded_text) && h.snippet.len() > 0 ==> second_body(h) == h.snippet,
{
}

/// The hits that the second pass looks at are the best of the first, and there are as many of
/// them as are shown, and never fewer than five while there are hits.
pub proof fn the_best_are_promoted(first: Seq<ScoreView>, limit: nat, i: int, j: int)
    requires
        ({
            let p = hits::at_most(first_order(first), budget(limit));
            &&& p.contains(i)
            &&& 0 <= j < first.len()
            &&& !p.contains(j)
        }),
    ensures
        0 <= i < first.len(),
        first[i].key >= first[j].key,
        hits::at_most(first_order(first), budget(limit)).len() >= 5,
        hits::at_most(first_order(first), budget(limit)).len() >= limit,
{
    let keys = rank::score_keys(first);
    rank::falling_is_in_order(keys);
    let o = first_order(first);
    let p = hits::at_most(o, budget(limit));
    let a = choose|a: int| 0 <= a < p.len() && p[a] == i;
    assert(o[a] == i);
    assert(o.contains(j));
    let b = choose|b: int| 0 <= b < o.len() && o[b] == j;
    if b < p.len() {
        assert(p[b] == j);
    }
    assert(keys[o[a]] == first[i].key);
    assert(keys[o[b]] == first[j].key);
}

/// The final order: the hits that the second pass looked at come first, the better of their
/// best windows before the worse, each with that score; the others follow by the first pass,
/// each with its score of that pass.
pub proof fn the_final_order_falls(first: Seq<ScoreView>, best: Seq<ScoreView>, a: int, b: int)
    requires
        best.len() <= first.len(),
        0 <= a < b < first.len(),
    ensures
        ({
            let f = final_places(first, best);
            &&& b < best.len() ==> f[a].score.key >= f[b].score.key && best.contains(f[a].score)
            &&& best.len() <= a ==> f[a].score.key >= f[b].score.key
            &&& best.len() <= b ==> f[b].score == first[f[b].place]
        }),
{
    ranking_is_a_permutation(first, best);
    let fk = rank::score_keys(first);
    let bk = rank::score_keys(best);
    rank::falling_is_in_order(fk);
    rank::falling_is_in_order(bk);
    let o = first_order(first);
    let bo = rank::falling(bk);
    let f = final_places(first, best);
    let n = best.len() as int;
    if b < n {
        assert(f[a].score == best[bo[a]] && f[b].score == best[bo[b]]);
        assert(bk[bo[a]] == best[bo[a]].key && bk[bo[b]] == best[bo[b]].key);
        assert(bk[bo[a]] >= bk[bo[b]]);
        assert(best.contains(best[bo[a]]));
    }
    if n <= a {
        assert(f[a].place == o[a] && f[a].score == first[o[a]]);
        assert(f[b].place == o[b] && f[b].score == first[o[b]]);
        assert(fk[o[a]] == first[o[a]].key && fk[o[b]] == first[o[b]].key);
        assert(fk[o[a]] >= fk[o[b]]);
    }
    if n <= b {
        assert(f[b].place == o[b] && f[b].score == first[o[b]]);
    }
}

/// A hit that the second pass looked at is shown with the score of its own best window.
pub proof fn each_hit_has_its_own_score(first: Seq<ScoreView>, best: Seq<ScoreView>, k: int)
    requires
        0 <= k < best.len() <= first.len(),
    ensures
        exists|i: int|
            0 <= i < best.len() && (#[trigger] final_places(first, best)[i]).place == first_order(
                first,
            )[k] && final_places(first, best)[i].score == best[k],
{
    let bk = rank::score_keys(best);
    rank::falling_is_in_order(bk);
    rank::falling_is_in_order(rank::score_keys(first));
    let bo = rank::falling(bk);
    assert(bo.contains(k));
    let i = choose|i: int| 0 <= i < bo.len() && bo[i] == k;
    let f = final_places(first, best);
    assert(f[i] == second_places(first_order(first).take(best.len() as int), best)[i]);
}

/// Every hit at the floor or above it stays, in its order, and only those.
pub proof fn everything_relevant_is_shown(a: Seq<Placed>, b: Seq<Placed>, x: Placed)
    ensures
        above_floor(a + b) == above_floor(a) + above_floor(b),
        x.score.key >= FLOOR_KEY ==> above_floor(seq![x]) == seq![x],
        x.score.key < FLOOR_KEY ==> above_floor(seq![x]) == Seq::<Placed>::empty(),
    decreases b.len(),
{
    let one = seq![x];
    assert(one.drop_last() =~= seq![]);
    assert(above_floor(seq![]) =~= seq![]);
    assert(Seq::<Placed>::empty().push(x) =~= one);
    if b.len() == 0 {
        assert(a + b =~= a);
        assert(above_floor(a) + above_floor(b) =~= above_floor(a));
    } else {
        let t = b.drop_last();
        everything_relevant_is_shown(a, t, x);
        assert((a + b).drop_last() =~= a + t);
        assert((above_floor(a) + above_floor(t)).push(b.last()) =~= above_floor(a) + above_floor(
            t,
        ).push(b.last()));
    }
}

/// The floor is a tenth, as a number of 32 bits: a 24-bit fraction of 2 to the 27th.
pub proof fn the_floor_is_a_tenth()
    ensures
        FLOOR_KEY == rank::ZERO_KEY + 0x3DCC_CCCD,
        0x3DCC_CCCDu32 == 123 * 0x80_0000 + 0x4C_CCCD,
        -10 < 10 * (0x80_0000 + 0x4C_CCCD) - 0x800_0000 < 10,
{
}

/// The packages are searched one after another.
pub proof fn packages_are_searched_in_order(
    a: Seq<SearchSource>,
    b: Seq<SearchSource>,
    s: SearchSource,
    lexical: bool,
    q: Option<QueryVector>,
)
    ensures
        plan(a + b, lexical, q) == plan(a, lexical, q) + plan(b, lexical, q),
        plan(seq![s], lexical, q) == source_steps(s, lexical, q),
    decreases b.len(),
{
    reveal_with_fuel(plan, 2);
    assert(seq![s].drop_last() =~= Seq::<SearchSource>::empty());
    assert(Seq::<StepView>::empty() + source_steps(s, lexical, q) =~= source_steps(s, lexical, q));
    if b.len() == 0 {
        assert(a + b =~= a);
        assert(plan(a, lexical, q) + plan(b, lexical, q) =~= plan(a, lexical, q));
    } else {
        let t = b.drop_last();
        packages_are_searched_in_order(a, t, s, lexical, q);
        assert((a + b).drop_last() =~= a + t);
        let x = plan(a, lexical, q);
        let y = plan(t, lexical, q);
        let z = source_steps(b.last(), lexical, q);
        assert(x + y + z =~= x + (y + z));
    }
}

/// When an index is searched among those of its package.
pub open spec fn turn(k: SearchKind) -> int {
    match k {
        SearchKind::Code => 0,
        SearchKind::CodeVector => 1,
        SearchKind::Docs => 2,
        SearchKind::DocsVector => 3,
        SearchKind::Graph => 4,
    }
}

/// Of a package the code is searched first, then the documentation, and the code graph last,
/// and each by words before it is by vectors.
pub proof fn indices_are_searched_in_their_turn(
    s: SearchSource,
    lexical: bool,
    q: Option<QueryVector>,
    i: int,
    j: int,
)
    requires
        0 <= i < j < source_steps(s, lexical, q).len(),
    ensures
        turn(source_steps(s, lexical, q)[i].kind) < turn(source_steps(s, lexical, q)[j].kind),
{
    let a = table_steps(
        s.package@,
        pieces::opt_text(s.code_dir),
        lexical,
        compatible(q, s.code_model),
        SearchKind::Code,
        SearchKind::CodeVector,
    );
    let b = table_steps(
        s.package@,
        pieces::opt_text(s.docs_dir),
        lexical,
        compatible(q, s.docs_model),
        SearchKind::Docs,
        SearchKind::DocsVector,
    );
    let c = table_steps(
        s.package@,
        pieces::opt_text(s.graph_dir),
        lexical,
        false,
        SearchKind::Graph,
        SearchKind::Graph,
    );
    assert(a.len() <= 2 && b.len() <= 2 && c.len() <= 1);
    let x = source_steps(s, lexical, q)[i];
    let y = source_steps(s, lexical, q)[j];
    let n = a.len() as int;
    let m = n + b.len() as int;
    assert(x == (if i < n {
        a[i]
    } else if i < m {
        b[i - n]
    } else {
        c[i - m]
    }));
    assert(y == (if j < n {
        a[j]
    } else if j < m {
        b[j - n]
    } else {
        c[j - m]
    }));
}

/// Where an index is searched by vectors, the query has a vector, and the index was embedded
/// by the same model in the same dimension; a search by words comes of words being searched.
pub proof fn no_search_without_cause(
    sources: Seq<SearchSource>,
    lexical: bool,
    q: Option<QueryVector>,
    i: int,
)
    requires
        0 <= i < plan(sources, lexical, q).len(),
    ensures
        ({
            let x = plan(sources, lexical, q)[i];
            exists|k: int|
                {
                    &&& 0 <= k < sources.len()
                    &&& (#[trigger] sources[k]).package@ == x.package
                    &&& match x.kind {
                        SearchKind::CodeVector => q is Some && sources[k].code_model is Some
                            && q->0.model == (sources[k].code_model->0).0@ && q->0.dim == (
                        sources[k].code_model->0).1 && sources[k].code_dir is Some
                            && sources[k].code_dir->0@ == x.dir,
                        SearchKind::DocsVector => q is Some && sources[k].docs_model is Some
                            && q->0.model == (sources[k].docs_model->0).0@ && q->0.dim == (
                        sources[k].docs_model->0).1 && sources[k].docs_dir is Some
                            && sources[k].docs_dir->0@ == x.dir,
                        SearchKind::Code => lexical && sources[k].code_dir is Some
                            && sources[k].code_dir->0@ == x.dir,
                        SearchKind::Docs => lexical && sources[k].docs_dir is Some
                            && sources[k].docs_dir->0@ == x.dir,
                        SearchKind::Graph => lexical && sources[k].graph_dir is Some
                            && sources[k].graph_dir->0@ == x.dir,
                    }
                }
        }),
{
    vectors_are_compared_within_a_model(sources, lexical, q, i);
    let x = plan(sources, lexical, q)[i];
    let k = choose|k: int|
        0 <= k < sources.len() && planned(
            #[trigger] sources[k],
            lexical,
            q,
            plan(sources, lexical, q)[i],
        );
    assert(planned(sources[k], lexical, q, x));
    assert(sources[k].package@ == x.package);
}

/// A variant is searched in its own way and no other, and counts once.
pub proof fn variants_are_searched_in_their_way(v: query_expansion::VariantView)
    ensures
        variant_run(v).query == v.text,
        variant_run(v).weight == 1,
        v.kind == ExpansionKind::Lexical ==> variant_run(v).lexical && !variant_run(v).vector,
        v.kind == ExpansionKind::Vector ==> !variant_run(v).lexical && variant_run(v).vector,
{
}

/// Noting the best window changes nothing else of a hit, and the window that is noted is one
/// of those that its text was cut into.
pub proof fn the_best_window_is_noted(h: HitView, at: nat)
    requires
        at < windows::window_texts(second_body(h)).len() <= usize::MAX,
    ensures
        ({
            let w = windowed(h, at);
            &&& w.best_window == Some(windows::window_texts(second_body(h))[at as int])
            &&& w.best_window_first == (at == 0)
            &&& w.kwic_count == windows::window_texts(second_body(h)).len()
            &&& w == (HitView {
                best_window: w.best_window,
                best_window_first: w.best_window_first,
                kwic_count: w.kwic_count,
                ..h
            })
        }),
{
}

/// A query has a vector where both the vector and its model are known.
pub proof fn vectors_need_their_model(dim: usize, model: String)
    ensures
        query_vector(Some(dim), Some(model)) == Some(QueryVector { model: model@, dim: dim as nat }),
        query_vector(None, Some(model)) is None,
        query_vector(Some(dim), None) is None,
{
}

/// A hit that says nothing is scored by its path, in both passes.
pub proof fn silent_hits_are_scored_by_their_path(h: HitView)
    requires
        h.snippet.len() == 0,
        !hits::said(h.signature),
        !hits::said(h.expanded_text),
    ensures
        first_body(h) == h.path,
        second_body(h) == h.path,
{
}

} // verus!
