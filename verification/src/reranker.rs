//! Reranking: its settings, its prompts, the notices that go with downloading its
//! model, and the order in which scored candidates come out.

use vstd::prelude::*;

use crate::accel::GpuMode;
use crate::json;
use crate::json::{read_list, Json, JsonView};
use crate::lance;
use crate::lance::{show_place, SearchResult};
use crate::paths;
use crate::paths::join_path;
use crate::pieces;
use crate::pieces::{join_texts, read_number, write_decimal};
use crate::rank;
use crate::rank::{order_falling, Score, ScoreView};
use crate::symbols;
use crate::symbols::{label_of, node_of};
use crate::providers::{OpenAiProviderConfig, ProviderKind};
use crate::text;
use crate::text::{chars_of, same_text, string_of, strip_front};

verus! {

/// Where the default model is downloaded from. The place is public.
pub const DEFAULT_GGUF_URL: &'static str = "https://huggingface.co/ggml-org/Qwen3-Reranker-0.6B-Q8_0-GGUF/resolve/main/qwen3-reranker-0.6b-q8_0.gguf";

/// The `[reranker]` section of the settings.
#[derive(Debug, Clone)]
pub struct RerankerConfig {
    /// Whether reranking is active.
    pub enabled: bool,
    pub provider: ProviderKind,
    /// The model's file. May begin with `~`.
    pub model: Option<String>,
    /// Where to download the model from, in place of the default address.
    pub model_url: Option<String>,
    /// Settings for a remote backend.
    pub openai: Option<OpenAiProviderConfig>,
    /// How many candidates are scored.
    pub top_k: usize,
    /// How many results are returned.
    pub output_n: usize,
    pub gpu: GpuMode,
    /// CPU threads; `0` means all cores.
    pub n_threads: u32,
    /// Layers to offload; `0` leaves it to `gpu`.
    pub gpu_layers: u32,
}

/// The settings where nothing is set.
pub open spec fn is_default(c: RerankerConfig) -> bool {
    &&& c.enabled
    &&& c.provider == ProviderKind::Local
    &&& c.model is None
    &&& c.model_url is None
    &&& c.openai is None
    &&& c.top_k == 20
    &&& c.output_n == 5
    &&& c.gpu == GpuMode::Auto
    &&& c.n_threads == 0
    &&& c.gpu_layers == 0
}

impl Default for RerankerConfig {
    fn default() -> (r: Self)
        ensures
            is_default(r),
    {
        RerankerConfig {
            enabled: true,
            provider: ProviderKind::Local,
            model: None,
            model_url: None,
            openai: None,
            top_k: 20,
            output_n: 5,
            gpu: GpuMode::Auto,
            n_threads: 0,
            gpu_layers: 0,
        }
    }
}

// ---------------------------------------------------------------------------
// Model files
// ---------------------------------------------------------------------------

/// `dirs::home_dir`: the user's home directory, where one is known. It depends on
/// the machine and the user, so nothing is claimed of it.
#[verifier::external_body]
pub(crate) fn home_dir() -> (r: Option<String>) {
    dirs::home_dir().map(|p| p.to_string_lossy().to_string())
}

/// The home directory, or the current directory where there is none.
pub open spec fn home_or_dot(home: Option<Seq<char>>) -> Seq<char> {
    match home {
        Some(h) => h,
        None => "."@,
    }
}

/// The home directory, or the current directory where there is none.
pub fn home_text(home: &Option<String>) -> (r: String)
    ensures
        r@ == home_or_dot(pieces::opt_text(*home)),
{
    match home {
        Some(h) => h.clone(),
        None => ".".to_owned(),
    }
}

/// A path with a leading `~` turned into the home directory.
pub open spec fn tilde_expanded(path: Seq<char>, home: Option<Seq<char>>) -> Seq<char> {
    if text::starts_with(path, "~/"@) {
        paths::joined(home_or_dot(home), path.skip("~/"@.len() as int))
    } else if path == "~"@ {
        home_or_dot(home)
    } else {
        path
    }
}

/// Expand a leading `~` for a user whose home directory is `home`.
pub fn expand_tilde_in(path: &str, home: &Option<String>) -> (r: String)
    ensures
        r@ == tilde_expanded(path@, pieces::opt_text(*home)),
{
    let cs = chars_of(path);
    let mark = chars_of("~/");
    match strip_front(cs.as_slice(), mark.as_slice()) {
        Some(rest) => {
            let rest = string_of(rest);
            join_path(home_text(home).as_str(), rest.as_str())
        },
        None => {
            if same_text(path, "~") {
                home_text(home)
            } else {
                path.to_owned()
            }
        },
    }
}

/// Expand a leading `~` to the home directory.
pub fn expand_tilde(path: &str) -> (r: String)
    ensures
        exists|home: Option<Seq<char>>| r@ == #[trigger] tilde_expanded(path@, home),
{
    let home = home_dir();
    let r = expand_tilde_in(path, &home);
    assert(r@ == tilde_expanded(path@, pieces::opt_text(home)));
    r
}

/// The directory that models are kept in.
pub open spec fn model_dir(home: Option<Seq<char>>) -> Seq<char> {
    paths::joined(paths::joined(home_or_dot(home), ".sempkg"@), "models"@)
}

/// The model directory of a user whose home directory is `home`.
pub fn model_dir_in(home: &Option<String>) -> (r: String)
    ensures
        r@ == model_dir(pieces::opt_text(*home)),
{
    let base = join_path(home_text(home).as_str(), ".sempkg");
    join_path(base.as_str(), "models")
}

/// The directory that models are kept in.
pub fn default_model_dir() -> (r: String)
    ensures
        exists|home: Option<Seq<char>>| r@ == #[trigger] model_dir(home),
{
    let home = home_dir();
    let r = model_dir_in(&home);
    assert(r@ == model_dir(pieces::opt_text(home)));
    r
}

/// The reranker's own model file.
pub open spec fn default_model_file(home: Option<Seq<char>>) -> Seq<char> {
    paths::joined(model_dir(home), "qwen3-reranker-0.6b-q8_0.gguf"@)
}

/// The default model file of a user whose home directory is `home`.
pub fn default_model_path_in(home: &Option<String>) -> (r: String)
    ensures
        r@ == default_model_file(pieces::opt_text(*home)),
{
    join_path(model_dir_in(home).as_str(), "qwen3-reranker-0.6b-q8_0.gguf")
}

/// The default model file.
pub fn default_model_path() -> (r: String)
    ensures
        exists|home: Option<Seq<char>>| r@ == #[trigger] default_model_file(home),
{
    let home = home_dir();
    let r = default_model_path_in(&home);
    assert(r@ == default_model_file(pieces::opt_text(home)));
    r
}

/// The reranker's model file, for a user with a given home directory.
pub open spec fn reranker_path(cfg: RerankerConfig, home: Option<Seq<char>>) -> Seq<char> {
    tilde_expanded(
        match cfg.model {
            Some(m) => m@,
            None => default_model_file(home),
        },
        home,
    )
}

impl RerankerConfig {
    /// The model file for a user whose home directory is `home`.
    pub fn model_path_in(&self, home: &Option<String>) -> (r: String)
        ensures
            r@ == reranker_path(*self, pieces::opt_text(*home)),
    {
        let raw = match &self.model {
            Some(m) => m.clone(),
            None => default_model_path_in(home),
        };
        expand_tilde_in(raw.as_str(), home)
    }

    /// The model file, with `~` expanded.
    pub fn resolved_model_path(&self) -> (r: String)
        ensures
            exists|home: Option<Seq<char>>| r@ == #[trigger] reranker_path(*self, home),
    {
        let home = home_dir();
        let r = self.model_path_in(&home);
        assert(r@ == reranker_path(*self, pieces::opt_text(home)));
        r
    }
}

/// Where to download a model from: the address asked for, else the one in the
/// settings, else the built-in one.
pub fn download_source(asked: Option<&str>, configured: &Option<String>, built_in: &str) -> (r:
    String)
    ensures
        r@ == (match asked {
            Some(u) => u@,
            None => match *configured {
                Some(u) => u@,
                None => built_in@,
            },
        }),
{
    match asked {
        Some(u) => u.to_owned(),
        None => match configured {
            Some(u) => u.clone(),
            None => built_in.to_owned(),
        },
    }
}

// ---------------------------------------------------------------------------
// Notices
// ---------------------------------------------------------------------------

pub open spec fn unauthorized_text(url: Seq<char>, dest: Seq<char>) -> Seq<char> {
    "HTTP 401 Unauthorized for "@ + url
        + "\n\nThis URL requires authentication, but sempkg downloads models anonymously and sends no credentials.\n\nPoint `--gguf-url` at a public GGUF, or download the file yourself and save it to:\n\n    "@
        + dest + "\n\nsempkg picks it up on the next run."@
}

/// What to tell a user whose download was answered with `401 Unauthorized`. No
/// credential is ever sent, so none is asked for.
pub fn unauthorized_notice(url: &str, dest: &str) -> (r: String)
    ensures
        r@ == unauthorized_text(url@, dest@),
{
    let mut r = "HTTP 401 Unauthorized for ".to_owned();
    r.append(url);
    r.append(
        "\n\nThis URL requires authentication, but sempkg downloads models anonymously and sends no credentials.\n\nPoint `--gguf-url` at a public GGUF, or download the file yourself and save it to:\n\n    ",
    );
    r.append(dest);
    r.append("\n\nsempkg picks it up on the next run.");
    r
}

/// What to tell a user whose download failed: where to get the file by hand, and
/// exactly where to put it.
pub fn manual_placement_notice(url: &str, dest: &str) -> (r: String)
    ensures
        r@ == "Could not download the model from "@ + url@
            + "\n\nsempkg downloads models anonymously, so this is usually HuggingFace being unavailable or rate-limiting rather than anything wrong with your setup.\n\nYou can place the file by hand instead — download it from:\n\n    "@
            + url@ + "\n\nand save it to exactly this path:\n\n    "@ + dest@
            + "\n\nsempkg picks it up on the next run: `pull` sees the file and skips the download entirely."@,
{
    let mut r = "Could not download the model from ".to_owned();
    r.append(url);
    r.append(
        "\n\nsempkg downloads models anonymously, so this is usually HuggingFace being unavailable or rate-limiting rather than anything wrong with your setup.\n\nYou can place the file by hand instead — download it from:\n\n    ",
    );
    r.append(url);
    r.append("\n\nand save it to exactly this path:\n\n    ");
    r.append(dest);
    r.append(
        "\n\nsempkg picks it up on the next run: `pull` sees the file and skips the download entirely.",
    );
    r
}

// ---------------------------------------------------------------------------
// Prompt
// ---------------------------------------------------------------------------

/// The prompt that a query and a document are scored with. The model was trained on
/// this very template.
pub fn build_rerank_prompt(query: &str, document: &str) -> (r: String)
    ensures
        r@ == "<|im_start|>system\nJudge whether the Document meets the requirements of the Query. Note that the answer can only be \"yes\" or \"no\".<|im_end|>\n<|im_start|>user\n<Instruct>: Given a search query, retrieve relevant code and documentation that answers the query\n<Query>: "@
            + query@ + "\n<Document>: "@ + document@
            + "<|im_end|>\n<|im_start|>assistant\n<think>\n\n</think>\n\n"@,
{
    let mut r = "<|im_start|>system\nJudge whether the Document meets the requirements of the Query. Note that the answer can only be \"yes\" or \"no\".<|im_end|>\n<|im_start|>user\n<Instruct>: Given a search query, retrieve relevant code and documentation that answers the query\n<Query>: ".to_owned();
    r.append(query);
    r.append("\n<Document>: ");
    r.append(document);
    r.append("<|im_end|>\n<|im_start|>assistant\n<think>\n\n</think>\n\n");
    r
}

// ---------------------------------------------------------------------------
// Candidates
// ---------------------------------------------------------------------------

/// Where a candidate was found.
#[derive(Debug, Clone, Copy, PartialEq, Eq, Structural)]
pub enum RerankOrigin {
    Codegraph,
    Docs,
}

/// Something to be scored: what it is called, and the text that is scored.
#[derive(Debug, Clone)]
pub struct RerankCandidate {
    pub source: String,
    pub text: String,
    pub origin: RerankOrigin,
}

/// A candidate with its score.
#[derive(Debug, Clone)]
pub struct RerankResult {
    pub source: String,
    pub text: String,
    pub origin: RerankOrigin,
    pub score: Score,
}

pub ghost struct CandidateView {
    pub source: Seq<char>,
    pub text: Seq<char>,
    pub origin: RerankOrigin,
}

pub ghost struct ResultView {
    pub candidate: CandidateView,
    pub score: ScoreView,
}

impl View for RerankCandidate {
    type V = CandidateView;

    open spec fn view(&self) -> CandidateView {
        CandidateView { source: self.source@, text: self.text@, origin: self.origin }
    }
}

impl View for RerankResult {
    type V = ResultView;

    open spec fn view(&self) -> ResultView {
        ResultView {
            candidate: CandidateView {
                source: self.source@,
                text: self.text@,
                origin: self.origin,
            },
            score: self.score@,
        }
    }
}

pub open spec fn candidate_views(v: Seq<RerankCandidate>) -> Seq<CandidateView> {
    v.map_values(|x: RerankCandidate| x@)
}

pub open spec fn result_views(v: Seq<RerankResult>) -> Seq<ResultView> {
    v.map_values(|x: RerankResult| x@)
}

/// A symbol as a candidate: called by its label, described by its kind, its signature
/// and its file.
pub open spec fn symbol_candidate(v: JsonView) -> Option<CandidateView> {
    let n = symbols::node(v);
    match n {
        JsonView::Object(_) => {
            let label = symbols::label(n);
            let kind = json::word(n, "kind"@);
            let file = json::word(n, "filePath"@);
            let named = if kind.len() > 0 {
                kind + " "@ + label
            } else {
                label
            };
            let signed = named + json::word(n, "signature"@);
            Some(
                CandidateView {
                    source: if label.len() > 0 {
                        label
                    } else {
                        "unknown"@
                    },
                    text: if file.len() > 0 {
                        signed + " in "@ + file
                    } else {
                        signed
                    },
                    origin: RerankOrigin::Codegraph,
                },
            )
        },
        _ => None,
    }
}

/// The symbols among the items of an answer, as candidates.
pub open spec fn symbol_candidates(items: Seq<JsonView>) -> Seq<CandidateView>
    decreases items.len(),
{
    if items.len() == 0 {
        seq![]
    } else {
        let before = symbol_candidates(items.drop_last());
        match symbol_candidate(items.last()) {
            Some(c) => before.push(c),
            None => before,
        }
    }
}

fn symbol_to_candidate(v: &Json) -> (r: Option<RerankCandidate>)
    ensures
        match r {
            Some(c) => symbol_candidate(v@) == Some(c@),
            None => symbol_candidate(v@) is None,
        },
{
    let n = node_of(v);
    match n {
        Json::Object(_) => {
            let label = label_of(n);
            let kind = n.word("kind");
            let mut text = kind.clone();
            if !kind.as_str().is_empty() {
                text.append(" ");
                text.append(label.as_str());
            } else {
                text = label.clone();
            }
            text.append(n.word("signature").as_str());
            let file = n.word("filePath");
            if !file.as_str().is_empty() {
                text.append(" in ");
                text.append(file.as_str());
            }
            let source = if label.as_str().is_empty() {
                "unknown".to_owned()
            } else {
                label
            };
            Some(RerankCandidate { source, text, origin: RerankOrigin::Codegraph })
        },
        _ => None,
    }
}

/// The candidates of the items of an answer.
pub fn items_to_candidates(items: &Vec<Json>) -> (r: Vec<RerankCandidate>)
    ensures
        candidate_views(r@) == symbol_candidates(json::trees(items@)),
{
    let mut r: Vec<RerankCandidate> = Vec::new();
    assert(candidate_views(r@) =~= seq![]);
    let ghost all = json::trees(items@);
    let mut i: usize = 0;
    proof {
        json::lemma_trees(items@);
        assert(all.take(0) =~= seq![]);
    }
    while i < items.len()
        invariant
            i <= items@.len(),
            all.len() == items@.len(),
            forall|j: int| 0 <= j < items@.len() ==> all[j] == (#[trigger] items@[j])@,
            candidate_views(r@) == symbol_candidates(all.take(i as int)),
        decreases items.len() - i,
    {
        proof {
            assert(all.take(i + 1).drop_last() =~= all.take(i as int));
            assert(all.take(i + 1).last() == items@[i as int]@);
        }
        let ghost before = candidate_views(r@);
        match symbol_to_candidate(&items[i]) {
            Some(c) => {
                let ghost cv = c@;
                r.push(c);
                assert(candidate_views(r@) =~= before.push(cv));
            },
            None => {},
        }
        i = i + 1;
    }
    assert(all.take(items@.len() as int) =~= all);
    r
}

/// The candidates of an answer of the code graph; none where it is not a list.
pub fn codegraph_json_to_candidates(answer: &str) -> (r: Vec<RerankCandidate>)
    ensures
        candidate_views(r@) == (match json::listed(answer@) {
            Some(items) => symbol_candidates(items),
            None => seq![],
        }),
{
    match read_list(answer) {
        None => {
            let none: Vec<RerankCandidate> = Vec::new();
            assert(candidate_views(none@) =~= seq![]);
            none
        },
        Some(items) => items_to_candidates(&items),
    }
}

/// A passage as a candidate.
pub open spec fn passage_candidate(r: SearchResult) -> CandidateView {
    CandidateView {
        source: lance::place_text(r),
        text: r.snippet@,
        origin: RerankOrigin::Docs,
    }
}

/// Hits of a table as candidates.
pub fn lance_results_to_candidates(results: &Vec<SearchResult>) -> (r: Vec<RerankCandidate>)
    ensures
        candidate_views(r@) == results@.map_values(|x: SearchResult| passage_candidate(x)),
{
    let mut r: Vec<RerankCandidate> = Vec::new();
    let ghost want = results@.map_values(|x: SearchResult| passage_candidate(x));
    let mut i: usize = 0;
    while i < results.len()
        invariant
            i <= results@.len(),
            want == results@.map_values(|x: SearchResult| passage_candidate(x)),
            candidate_views(r@) == want.take(i as int),
        decreases results.len() - i,
    {
        let ghost before = candidate_views(r@);
        r.push(
            RerankCandidate {
                source: show_place(&results[i]),
                text: results[i].snippet.clone(),
                origin: RerankOrigin::Docs,
            },
        );
        proof {
            assert(candidate_views(r@) =~= before.push(want[i as int]));
            assert(want.take(i + 1) =~= want.take(i as int).push(want[i as int]));
        }
        i = i + 1;
    }
    assert(want.take(results@.len() as int) =~= want);
    r
}

// ---------------------------------------------------------------------------
// Reranking
// ---------------------------------------------------------------------------

/// How many candidates are scored.
pub open spec fn pool_len(n: nat, top_k: nat) -> nat {
    if n < top_k {
        n
    } else {
        top_k
    }
}

/// The candidates in falling order of their scores: the first `top_k` are scored, and
/// the best `output_n` of them are kept.
pub open spec fn reranked(
    cs: Seq<CandidateView>,
    scores: Seq<ScoreView>,
    top_k: nat,
    output_n: nat,
) -> Seq<ResultView> {
    let n = pool_len(cs.len(), top_k);
    let order = rank::falling(rank::score_keys(scores.take(n as int)));
    Seq::new(
        pool_len(n, output_n),
        |i: int| ResultView { candidate: cs[order[i]], score: scores[order[i]] },
    )
}

/// Order candidates by the scores that were given to the first `top_k` of them.
pub fn rerank(
    candidates: &Vec<RerankCandidate>,
    scores: &Vec<Score>,
    top_k: usize,
    output_n: usize,
) -> (r: Vec<RerankResult>)
    requires
        scores@.len() >= pool_len(candidates@.len(), top_k as nat),
    ensures
        result_views(r@) == reranked(
            candidate_views(candidates@),
            rank::score_views(scores@),
            top_k as nat,
            output_n as nat,
        ),
{
    let n: usize = if candidates.len() < top_k {
        candidates.len()
    } else {
        top_k
    };
    let ghost cs = candidate_views(candidates@);
    let ghost sc = rank::score_views(scores@);
    let ghost wanted = rank::score_keys(sc.take(n as int));
    let mut keys: Vec<u64> = Vec::new();
    let mut i: usize = 0;
    while i < n
        invariant
            i <= n <= scores@.len(),
            sc == rank::score_views(scores@),
            wanted == rank::score_keys(sc.take(n as int)),
            keys@ == wanted.take(i as int),
        decreases n - i,
    {
        keys.push(scores[i].key);
        i = i + 1;
        assert(wanted[i - 1] == scores@[i - 1].key);
        assert(keys@ =~= wanted.take(i as int));
    }
    assert(wanted.take(n as int) =~= wanted);
    let order = order_falling(&keys);
    let ghost places = rank::falling(wanted);
    proof {
        rank::falling_is_in_order(wanted);
        assert(order@.len() == places.len()) by {
            assert(rank::places(order@).len() == order@.len());
        }
    }
    let m: usize = if n < output_n {
        n
    } else {
        output_n
    };
    let ghost want = reranked(cs, sc, top_k as nat, output_n as nat);
    let mut r: Vec<RerankResult> = Vec::new();
    let mut k: usize = 0;
    assert(result_views(r@) =~= want.take(0));
    while k < m
        invariant
            k <= m <= n,
            n == order@.len(),
            n <= candidates@.len(),
            n <= scores@.len(),
            want.len() == m,
            places == rank::places(order@),
            forall|j: int| 0 <= j < order@.len() ==> #[trigger] order@[j] < n,
            cs == candidate_views(candidates@),
            sc == rank::score_views(scores@),
            forall|j: int|
                0 <= j < m ==> #[trigger] want[j] == (ResultView {
                    candidate: cs[places[j]],
                    score: sc[places[j]],
                }),
            result_views(r@) == want.take(k as int),
        decreases m - k,
    {
        let ghost before = result_views(r@);
        let at: usize = order[k];
        assert(places[k as int] == at);
        r.push(
            RerankResult {
                source: candidates[at].source.clone(),
                text: candidates[at].text.clone(),
                origin: candidates[at].origin,
                score: scores[at].copy(),
            },
        );
        proof {
            assert(r@.last()@ == want[k as int]);
            assert(result_views(r@) =~= before.push(want[k as int]));
            assert(want.take(k + 1) =~= want.take(k as int).push(want[k as int]));
        }
        k = k + 1;
    }
    assert(want.take(m as int) =~= want);
    r
}

/// A result is one of the first `n` candidates, with its own score.
pub open spec fn is_scored(
    r: ResultView,
    cs: Seq<CandidateView>,
    scores: Seq<ScoreView>,
    n: nat,
) -> bool {
    exists|k: int|
        0 <= k < n && r.candidate == #[trigger] cs[k] && r.score == scores[k]
}

/// A result stands before the place `i`.
pub open spec fn stands_before(rs: Seq<ResultView>, i: int, r: ResultView) -> bool {
    exists|j: int| 0 <= j < i && #[trigger] rs[j] == r
}

/// Reranked results stand in falling order of their scores, and every one of them is one
/// of the scored candidates with its own score. A scored candidate with a better score
/// than some result stands before that result: nothing better is left out.
pub proof fn reranked_results_are_ordered(
    cs: Seq<CandidateView>,
    scores: Seq<ScoreView>,
    top_k: nat,
    output_n: nat,
)
    requires
        scores.len() >= pool_len(cs.len(), top_k),
    ensures
        ({
            let rs = reranked(cs, scores, top_k, output_n);
            let n = pool_len(cs.len(), top_k);
            &&& rs.len() == pool_len(n, output_n)
            &&& forall|i: int, j: int|
                0 <= i < j < rs.len() ==> (#[trigger] rs[i]).score.key >= (
                #[trigger] rs[j]).score.key
            &&& forall|i: int| 0 <= i < rs.len() ==> is_scored(#[trigger] rs[i], cs, scores, n)
            &&& forall|i: int, k: int|
                0 <= i < rs.len() && 0 <= k < n && (#[trigger] scores[k]).key > (
                #[trigger] rs[i]).score.key ==> stands_before(
                    rs,
                    i,
                    ResultView { candidate: cs[k], score: scores[k] },
                )
        }),
{
    let n = pool_len(cs.len(), top_k);
    let keys = rank::score_keys(scores.take(n as int));
    let order = rank::falling(keys);
    rank::falling_is_in_order(keys);
    let r = reranked(cs, scores, top_k, output_n);
    assert forall|i: int| 0 <= i < n implies keys[i] == (#[trigger] scores[i]).key by {}
    assert forall|i: int, j: int| 0 <= i < j < r.len() implies (#[trigger] r[i]).score.key >= (
    #[trigger] r[j]).score.key by {
        assert(keys[order[i]] == scores[order[i]].key && keys[order[j]] == scores[order[j]].key);
    }
    assert forall|i: int| 0 <= i < r.len() implies is_scored(#[trigger] r[i], cs, scores, n) by {
        let k = order[i];
        assert(r[i].candidate == cs[k] && r[i].score == scores[k]);
    }
    assert forall|i: int, k: int|
        0 <= i < r.len() && 0 <= k < n && (#[trigger] scores[k]).key > (
        #[trigger] r[i]).score.key implies stands_before(
        r,
        i,
        ResultView { candidate: cs[k], score: scores[k] },
    ) by {
        assert(order.contains(k));
        let j = choose|j: int| 0 <= j < order.len() && order[j] == k;
        assert(keys[order[i]] == scores[order[i]].key && keys[order[j]] == scores[k].key);
        if j >= i {
            assert(j != i);
            assert(keys[order[i]] >= keys[order[j]]);
        }
        assert(r[j] == (ResultView { candidate: cs[k], score: scores[k] }));
    }
}

/// A reranked passage in Markdown, with its relevance.
pub open spec fn ranked_text(r: ResultView) -> Seq<char> {
    "**"@ + r.candidate.source + "** _(relevance: "@ + r.score.short + ")_\n\n"@ + r.candidate.text
}

/// Reranked passages in Markdown.
pub fn format_reranked_docs(results: &Vec<RerankResult>, query: &str) -> (t: String)
    ensures
        t@ == (if results@.len() == 0 {
            lance::no_results(query@)
        } else {
            pieces::join(
                result_views(results@).map_values(|r: ResultView| ranked_text(r)),
                "\n\n---\n\n"@,
            )
        }),
{
    if results.len() == 0 {
        let mut t = "No results for '".to_owned();
        t.append(query);
        t.append("'.");
        return t;
    }
    let mut parts: Vec<String> = Vec::new();
    let ghost want = result_views(results@).map_values(|r: ResultView| ranked_text(r));
    let mut i: usize = 0;
    assert(pieces::texts(parts@) =~= want.take(0));
    while i < results.len()
        invariant
            i <= results@.len(),
            want == result_views(results@).map_values(|r: ResultView| ranked_text(r)),
            pieces::texts(parts@) == want.take(i as int),
        decreases results.len() - i,
    {
        let ghost before = pieces::texts(parts@);
        let r = &results[i];
        let mut t = "**".to_owned();
        t.append(r.source.as_str());
        t.append("** _(relevance: ");
        t.append(r.score.short.as_str());
        t.append(")_\n\n");
        t.append(r.text.as_str());
        parts.push(t);
        proof {
            assert(want[i as int] == ranked_text(results@[i as int]@));
            assert(pieces::texts(parts@) =~= before.push(want[i as int]));
            assert(want.take(i + 1) =~= want.take(i as int).push(want[i as int]));
        }
        i = i + 1;
    }
    assert(want.take(results@.len() as int) =~= want);
    join_texts(&parts, "\n\n---\n\n")
}

// ---------------------------------------------------------------------------
// Downloading a model
// ---------------------------------------------------------------------------

/// How many times a download is tried.
pub const MAX_ATTEMPTS: u32 = 3;

/// The seconds that a retry waits for each attempt before it.
pub const RETRY_BACKOFF: u64 = 2;

/// How long a download may take: what the environment asks for, where that is a number
/// above zero, or half an hour.
pub fn download_timeout(asked: Option<&str>) -> (secs: u64)
    ensures
        secs == (match asked {
            Some(t) => match pieces::number(t@) {
                Some(n) => if 0 < n <= u64::MAX {
                    n as u64
                } else {
                    1800
                },
                None => 1800,
            },
            None => 1800,
        }),
{
    match asked {
        Some(t) => {
            let cs = chars_of(t);
            match read_number(cs.as_slice(), u64::MAX) {
                Some(n) => {
                    if n > 0 {
                        n
                    } else {
                        1800
                    }
                },
                None => 1800,
            }
        },
        None => 1800,
    }
}

/// What an attempt to download came to.
#[derive(Debug, Clone)]
pub enum Attempt {
    /// No answer came, or reading it broke off.
    Broken(String),
    /// An answer that reports an error with this status.
    Refused(u16, String),
    /// A body of this length, and the length that was announced.
    Body(u64, Option<u64>),
}

/// What follows an attempt.
#[derive(Debug, Clone)]
pub enum NextStep {
    /// Put the file in its place.
    Keep,
    /// Wait so many seconds and try again.
    RetryAfter(u64),
    /// Give up.
    Fail(String),
}

/// The length of a body differs from the length that was announced.
pub open spec fn is_truncated(n: u64, announced: Option<u64>) -> bool {
    match announced {
        Some(m) => n != m,
        None => false,
    }
}

/// What follows an attempt to download. A download that needs a credential is not tried
/// again, and a body that was cut short is never kept.
pub fn after_attempt(attempt: u32, outcome: &Attempt, url: &str, dest: &str) -> (r: NextStep)
    requires
        1 <= attempt <= MAX_ATTEMPTS,
    ensures
        match *outcome {
            Attempt::Broken(e) => if attempt < MAX_ATTEMPTS {
                r == NextStep::RetryAfter((RETRY_BACKOFF * attempt) as u64)
            } else {
                r is Fail && r->Fail_0@ == e@
            },
            Attempt::Refused(status, e) => if status == 401 {
                r is Fail && r->Fail_0@ == unauthorized_text(url@, dest@)
            } else if attempt < MAX_ATTEMPTS {
                r == NextStep::RetryAfter((RETRY_BACKOFF * attempt) as u64)
            } else {
                r is Fail && r->Fail_0@ == "HTTP error for "@ + url@ + ": "@ + e@
            },
            Attempt::Body(n, announced) => if is_truncated(n, announced) {
                r is Fail && r->Fail_0@ == "truncated download for "@ + url@ + ": expected "@
                    + pieces::decimal(announced->0 as nat) + " bytes, got "@ + pieces::decimal(
                    n as nat,
                )
            } else {
                r == NextStep::Keep
            },
        },
        attempt == MAX_ATTEMPTS ==> !(r is RetryAfter),
{
    let wait: u64 = RETRY_BACKOFF * attempt as u64;
    match outcome {
        Attempt::Broken(e) => {
            if attempt < MAX_ATTEMPTS {
                NextStep::RetryAfter(wait)
            } else {
                NextStep::Fail(e.clone())
            }
        },
        Attempt::Refused(status, e) => {
            if *status == 401 {
                NextStep::Fail(unauthorized_notice(url, dest))
            } else if attempt < MAX_ATTEMPTS {
                NextStep::RetryAfter(wait)
            } else {
                let mut t = "HTTP error for ".to_owned();
                t.append(url);
                t.append(": ");
                t.append(e.as_str());
                NextStep::Fail(t)
            }
        },
        Attempt::Body(n, announced) => {
            match announced {
                Some(m) => {
                    if *n != *m {
                        let mut t = "truncated download for ".to_owned();
                        t.append(url);
                        t.append(": expected ");
                        t.append(write_decimal(*m).as_str());
                        t.append(" bytes, got ");
                        t.append(write_decimal(*n).as_str());
                        return NextStep::Fail(t);
                    }
                },
                None => {},
            }
            NextStep::Keep
        },
    }
}

/// What pulling a model comes to.
#[derive(Debug, Clone)]
pub enum PullStep {
    /// The model is there already.
    AlreadyPresent(String),
    /// Download this address to this file.
    Download(String, String),
}

/// What to do to pull a model: nothing where its file is there.
pub fn pull_step(
    asked: Option<&str>,
    configured: &Option<String>,
    built_in: &str,
    dest: &str,
    present: bool,
) -> (r: PullStep)
    ensures
        match r {
            PullStep::AlreadyPresent(p) => present && p@ == dest@,
            PullStep::Download(u, p) => !present && p@ == dest@ && u@ == (match asked {
                Some(u) => u@,
                None => match *configured {
                    Some(u) => u@,
                    None => built_in@,
                },
            }),
        },
{
    if present {
        PullStep::AlreadyPresent(dest.to_owned())
    } else {
        PullStep::Download(download_source(asked, configured, built_in), dest.to_owned())
    }
}

/// As many results come back as are asked for, where so many were scored.
pub proof fn all_results_asked_for_come_back(
    cs: Seq<CandidateView>,
    scores: Seq<ScoreView>,
    top_k: nat,
    output_n: nat,
)
    ensures
        ({
            let n = reranked(cs, scores, top_k, output_n).len();
            &&& n <= cs.len() && n <= top_k && n <= output_n
            &&& n == cs.len() || n == top_k || n == output_n
        }),
{
}

/// Candidates are made of the items of an answer one by one: one of every item that has a
/// symbol, in their order.
pub proof fn every_symbol_is_a_candidate(a: Seq<JsonView>, b: Seq<JsonView>, v: JsonView)
    ensures
        symbol_candidates(a + b) == symbol_candidates(a) + symbol_candidates(b),
        match symbol_candidate(v) {
            Some(c) => symbol_candidates(seq![v]) == seq![c],
            None => symbol_candidates(seq![v]).len() == 0,
        },
        symbols::node(v) is Object <==> symbol_candidate(v) is Some,
    decreases b.len(),
{
    reveal_with_fuel(symbol_candidates, 2);
    assert(seq![v].drop_last() =~= Seq::<JsonView>::empty());
    match symbol_candidate(v) {
        Some(c) => {
            assert(symbol_candidates(seq![v]) =~= seq![c]);
        },
        None => {},
    }
    if b.len() == 0 {
        assert(a + b =~= a);
        assert(symbol_candidates(a) + symbol_candidates(b) =~= symbol_candidates(a));
    } else {
        let t = b.drop_last();
        every_symbol_is_a_candidate(a, t, v);
        assert((a + b).drop_last() =~= a + t);
        match symbol_candidate(b.last()) {
            Some(c) => {
                assert((symbol_candidates(a) + symbol_candidates(t)).push(c)
                    =~= symbol_candidates(a) + symbol_candidates(t).push(c));
            },
            None => {},
        }
    }
}

/// The candidate of a symbol is called by the label of the symbol, and its text has the kind,
/// the signature and the file that the item has.
pub proof fn candidates_say_what_their_symbol_is(v: JsonView)
    requires
        symbols::node(v) is Object,
    ensures
        ({
            let n = symbols::node(v);
            let c = symbol_candidate(v)->0;
            let label = symbols::label(n);
            let kind = json::word(n, "kind"@);
            let signature = json::word(n, "signature"@);
            let file = json::word(n, "filePath"@);
            &&& c.origin == RerankOrigin::Codegraph
            &&& label.len() > 0 ==> c.source == label
            &&& kind.len() > 0 && file.len() > 0 ==> c.text == kind + " "@ + label + signature
                + " in "@ + file
            &&& kind.len() > 0 && file.len() == 0 ==> c.text == kind + " "@ + label + signature
            &&& kind.len() == 0 && file.len() > 0 ==> c.text == label + signature + " in "@ + file
            &&& kind.len() == 0 && file.len() == 0 ==> c.text == label + signature
        }),
{
}

/// A path below the home directory is found there, and any other path stays.
pub proof fn only_the_home_directory_is_expanded(path: Seq<char>, home: Seq<char>)
    ensures
        tilde_expanded("~/"@ + path, Some(home)) == paths::joined(home, path),
        tilde_expanded("~"@, Some(home)) == home,
        path.len() == 0 || path[0] != '~' ==> tilde_expanded(path, Some(home)) == path,
{
    reveal_strlit("~/");
    reveal_strlit("~");
    let p = "~/"@ + path;
    assert(p.subrange(0, "~/"@.len() as int) =~= "~/"@);
    assert(p.skip("~/"@.len() as int) =~= path);
    if text::starts_with("~"@, "~/"@) {
        assert(false);
    }
    if text::starts_with(path, "~/"@) {
        assert(path.subrange(0, 2)[0] == path[0]);
        assert("~/"@[0] == '~');
    }
    if path == "~"@ {
        assert("~"@[0] == '~');
    }
}

/// A symbol that is not called anything is called unknown, and its settings are those that a
/// reranker has where nothing is set.
pub proof fn nameless_symbols_are_unknown(v: JsonView, c: RerankerConfig)
    ensures
        symbols::node(v) is Object && symbols::label(symbols::node(v)).len() == 0
            ==> symbol_candidate(v)->0.source == "unknown"@,
        is_default(c) ==> c.enabled && c.provider == ProviderKind::Local && c.top_k == 20
            && c.output_n == 5 && c.model is None && c.model_url is None && c.openai is None
            && c.n_threads == 0 && c.gpu_layers == 0,
{
}

} // verus!
