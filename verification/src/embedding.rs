//! The embedding models and their settings.

use vstd::prelude::*;

use crate::accel::GpuMode;
use crate::lookup;
use crate::lookup::{local_docs_dir, Registered};
use crate::paths;
use crate::paths::join_path;
use crate::pieces;
use crate::pieces::lower_ascii;
use crate::providers::{OpenAiProviderConfig, ProviderKind};
use crate::reranker;
use crate::reranker::{expand_tilde_in, home_dir, model_dir_in};
use crate::store;
use crate::store::{list_all_bundles, BundleInfo, Installed};
use crate::text;
use crate::text::{chars_of, same_text, trim_class, CharClass};

verus! {

/// An embedding model. The model that embeds a query must be the one that embedded
/// the documents.
#[derive(Debug, Clone, Copy, PartialEq, Eq, Structural)]
pub enum EmbeddingModel {
    /// EmbeddingGemma-300M: 768 dimensions, mean pooling.
    Gemma300M,
    /// Qwen3-Embedding-0.6B: 1024 dimensions, last-token pooling.
    Qwen3Embedding0_6B,
}

/// The identity of a model beside the vectors that it made.
pub open spec fn model_id(m: EmbeddingModel) -> Seq<char> {
    match m {
        EmbeddingModel::Gemma300M => "embeddinggemma-300m"@,
        EmbeddingModel::Qwen3Embedding0_6B => "qwen3-embedding-0.6b"@,
    }
}

/// The name that a model is shown by.
pub open spec fn model_title(m: EmbeddingModel) -> Seq<char> {
    match m {
        EmbeddingModel::Gemma300M => "EmbeddingGemma-300M"@,
        EmbeddingModel::Qwen3Embedding0_6B => "Qwen3-Embedding-0.6B"@,
    }
}

/// How a model makes one vector of the vectors of a text's tokens.
#[derive(Debug, Clone, Copy, PartialEq, Eq, Structural)]
pub enum Pooling {
    /// Their mean.
    Mean,
    /// That of the last token.
    Last,
}

/// The dimension of a model's vectors.
pub open spec fn dimension(m: EmbeddingModel) -> usize {
    match m {
        EmbeddingModel::Gemma300M => 768,
        EmbeddingModel::Qwen3Embedding0_6B => 1024,
    }
}

/// What is said of a name that no model has.
pub open spec fn unknown_model(id: Seq<char>) -> Seq<char> {
    "unknown embedding model_id '"@ + id
        + "'. Known models: embeddinggemma-300m, qwen3-embedding-0.6b"@
}

/// The model that a setting names. White space around the name and the case of its
/// letters do not matter.
pub open spec fn named_model(id: Seq<char>) -> Option<EmbeddingModel> {
    let t = pieces::ascii_lowered(text::trim(id, CharClass::Space));
    if t == "embeddinggemma-300m"@ || t == "embeddinggemma"@ || t == "gemma"@ {
        Some(EmbeddingModel::Gemma300M)
    } else if t == "qwen3-embedding-0.6b"@ || t == "qwen3-embedding"@ || t == "qwen"@ {
        Some(EmbeddingModel::Qwen3Embedding0_6B)
    } else {
        None
    }
}

impl EmbeddingModel {
    /// The model of a workspace that names none.
    pub fn default_model() -> (r: Self)
        ensures
            r == EmbeddingModel::Gemma300M,
    {
        EmbeddingModel::Gemma300M
    }

    /// Read a `model_id` setting.
    pub fn from_id(id: &str) -> (r: Option<Self>)
        ensures
            r == named_model(id@),
    {
        let cs = chars_of(id);
        let t = lower_ascii(trim_class(cs.as_slice(), CharClass::Space));
        if same_text(t.as_str(), "embeddinggemma-300m") || same_text(t.as_str(), "embeddinggemma")
            || same_text(t.as_str(), "gemma") {
            Some(EmbeddingModel::Gemma300M)
        } else if same_text(t.as_str(), "qwen3-embedding-0.6b") || same_text(
            t.as_str(),
            "qwen3-embedding",
        ) || same_text(t.as_str(), "qwen") {
            Some(EmbeddingModel::Qwen3Embedding0_6B)
        } else {
            None
        }
    }

    /// The identity recorded in index metadata.
    pub fn id(&self) -> (r: &'static str)
        ensures
            r@ == model_id(*self),
    {
        match self {
            EmbeddingModel::Gemma300M => "embeddinggemma-300m",
            EmbeddingModel::Qwen3Embedding0_6B => "qwen3-embedding-0.6b",
        }
    }

    /// The name to show.
    pub fn display_name(&self) -> (r: &'static str)
        ensures
            r@ == model_title(*self),
    {
        match self {
            EmbeddingModel::Gemma300M => "EmbeddingGemma-300M",
            EmbeddingModel::Qwen3Embedding0_6B => "Qwen3-Embedding-0.6B",
        }
    }

    /// The dimension of the model's vectors.
    pub fn dim(&self) -> (r: usize)
        ensures
            r == dimension(*self),
    {
        match self {
            EmbeddingModel::Gemma300M => 768,
            EmbeddingModel::Qwen3Embedding0_6B => 1024,
        }
    }

    /// How the model pools its tokens.
    pub fn pooling_type(&self) -> (r: Pooling)
        ensures
            r == (match *self {
                EmbeddingModel::Gemma300M => Pooling::Mean,
                EmbeddingModel::Qwen3Embedding0_6B => Pooling::Last,
            }),
    {
        match self {
            EmbeddingModel::Gemma300M => Pooling::Mean,
            EmbeddingModel::Qwen3Embedding0_6B => Pooling::Last,
        }
    }

    /// The model's file below the model directory.
    pub fn default_filename(&self) -> (r: &'static str)
        ensures
            r@ == model_file(*self),
    {
        match self {
            EmbeddingModel::Gemma300M => "embeddinggemma-300m-qat-Q8_0.gguf",
            EmbeddingModel::Qwen3Embedding0_6B => "qwen3-embedding-0.6b-q8_0.gguf",
        }
    }

    /// Where the model can be downloaded without authentication.
    pub fn gguf_url(&self) -> (r: &'static str)
        ensures
            r@ == (match *self {
                EmbeddingModel::Gemma300M => "https://huggingface.co/ggml-org/embeddinggemma-300m-qat-q8_0-GGUF/resolve/main/embeddinggemma-300m-qat-Q8_0.gguf"@,
                EmbeddingModel::Qwen3Embedding0_6B => "https://huggingface.co/Qwen/Qwen3-Embedding-0.6B-GGUF/resolve/main/Qwen3-Embedding-0.6B-Q8_0.gguf"@,
            }),
    {
        match self {
            EmbeddingModel::Gemma300M => "https://huggingface.co/ggml-org/embeddinggemma-300m-qat-q8_0-GGUF/resolve/main/embeddinggemma-300m-qat-Q8_0.gguf",
            EmbeddingModel::Qwen3Embedding0_6B => "https://huggingface.co/Qwen/Qwen3-Embedding-0.6B-GGUF/resolve/main/Qwen3-Embedding-0.6B-Q8_0.gguf",
        }
    }

    /// A search query with the instruction that the model wants in front of it.
    pub fn format_query(&self, query: &str) -> (r: String)
        ensures
            r@ == (match *self {
                EmbeddingModel::Gemma300M => "task: search result | query: "@ + query@,
                EmbeddingModel::Qwen3Embedding0_6B => "Instruct: Retrieve relevant documents for the given query\nQuery: "@
                    + query@,
            }),
    {
        let mut r = match self {
            EmbeddingModel::Gemma300M => "task: search result | query: ".to_owned(),
            EmbeddingModel::Qwen3Embedding0_6B => "Instruct: Retrieve relevant documents for the given query\nQuery: ".to_owned(),
        };
        r.append(query);
        r
    }

    /// A document as the model wants it.
    pub fn format_document(&self, text: &str) -> (r: String)
        ensures
            r@ == (match *self {
                EmbeddingModel::Gemma300M => "title: none | text: "@ + text@,
                EmbeddingModel::Qwen3Embedding0_6B => text@,
            }),
    {
        match self {
            EmbeddingModel::Gemma300M => {
                let mut r = "title: none | text: ".to_owned();
                r.append(text);
                r
            },
            EmbeddingModel::Qwen3Embedding0_6B => text.to_owned(),
        }
    }
}

/// The file that a model is kept in.
pub open spec fn model_file(m: EmbeddingModel) -> Seq<char> {
    match m {
        EmbeddingModel::Gemma300M => "embeddinggemma-300m-qat-Q8_0.gguf"@,
        EmbeddingModel::Qwen3Embedding0_6B => "qwen3-embedding-0.6b-q8_0.gguf"@,
    }
}

/// The `[embedding]` section of the settings.
#[derive(Debug, Clone)]
pub struct EmbeddingConfig {
    /// Whether vector search is active.
    pub enabled: bool,
    /// The model's identity; see [`EmbeddingModel::from_id`].
    pub model_id: String,
    pub provider: ProviderKind,
    /// The model's file, in place of the default one. May begin with `~`.
    pub model: Option<String>,
    /// Where to download the model from, in place of the default address.
    pub model_url: Option<String>,
    /// Settings for a remote backend; it also needs `dim`.
    pub openai: Option<OpenAiProviderConfig>,
    /// The context window for one chunk.
    pub n_ctx: u32,
    pub gpu: GpuMode,
    /// CPU threads; `0` means all cores.
    pub n_threads: u32,
    /// Layers to offload; `0` leaves it to `gpu`.
    pub gpu_layers: u32,
}

/// The settings where nothing is set.
pub open spec fn is_default(c: EmbeddingConfig) -> bool {
    &&& c.enabled
    &&& c.model_id@ == "embeddinggemma-300m"@
    &&& c.provider == ProviderKind::Local
    &&& c.model is None
    &&& c.model_url is None
    &&& c.openai is None
    &&& c.n_ctx == 2048
    &&& c.gpu == GpuMode::Auto
    &&& c.n_threads == 0
    &&& c.gpu_layers == 0
}

impl Default for EmbeddingConfig {
    fn default() -> (r: Self)
        ensures
            is_default(r),
    {
        EmbeddingConfig {
            enabled: true,
            model_id: EmbeddingModel::default_model().id().to_owned(),
            provider: ProviderKind::Local,
            model: None,
            model_url: None,
            openai: None,
            n_ctx: 2048,
            gpu: GpuMode::Auto,
            n_threads: 0,
            gpu_layers: 0,
        }
    }
}

/// The embedding model's file, for a user with a given home directory.
pub open spec fn embedding_path(cfg: EmbeddingConfig, home: Option<Seq<char>>) -> Seq<char> {
    match cfg.model {
        Some(raw) => reranker::tilde_expanded(raw@, home),
        None => paths::joined(
            reranker::model_dir(home),
            model_file(
                match named_model(cfg.model_id@) {
                    Some(m) => m,
                    None => EmbeddingModel::Gemma300M,
                },
            ),
        ),
    }
}

impl EmbeddingConfig {
    /// The model that the settings select, or what is wrong with them.
    pub fn model(&self) -> (r: Result<EmbeddingModel, String>)
        ensures
            match r {
                Ok(m) => named_model(self.model_id@) == Some(m),
                Err(e) => named_model(self.model_id@) is None && e@ == unknown_model(self.model_id@),
            },
    {
        match EmbeddingModel::from_id(self.model_id.as_str()) {
            Some(m) => Ok(m),
            None => {
                let mut e = "unknown embedding model_id '".to_owned();
                e.append(self.model_id.as_str());
                e.append("'. Known models: embeddinggemma-300m, qwen3-embedding-0.6b");
                Err(e)
            },
        }
    }

    /// The model's file for a user whose home directory is `home`.
    pub fn model_path_in(&self, home: &Option<String>) -> (r: String)
        ensures
            r@ == embedding_path(*self, pieces::opt_text(*home)),
    {
        match &self.model {
            Some(raw) => expand_tilde_in(raw.as_str(), home),
            None => {
                let m = match EmbeddingModel::from_id(self.model_id.as_str()) {
                    Some(m) => m,
                    None => EmbeddingModel::Gemma300M,
                };
                join_path(model_dir_in(home).as_str(), m.default_filename())
            },
        }
    }

    /// The model's file: the one that is set, else the selected model's default file.
    pub fn resolved_model_path(&self) -> (r: String)
        ensures
            exists|home: Option<Seq<char>>| r@ == #[trigger] embedding_path(*self, home),
    {
        let home = home_dir();
        let r = self.model_path_in(&home);
        assert(r@ == embedding_path(*self, pieces::opt_text(home)));
        r
    }
}

/// A vector search is sound only where the query's embedder is the one that made the
/// stored vectors: the same identity and the same dimension.
pub fn embedder_matches(
    stored_model: &str,
    stored_dim: usize,
    model_id: &str,
    dim: usize,
) -> (r: bool)
    ensures
        r == (stored_model@ == model_id@ && stored_dim == dim),
{
    same_text(stored_model, model_id) && stored_dim == dim
}

/// Every identity that a model records is read back as that model.
pub proof fn recorded_ids_name_their_model(m: EmbeddingModel)
    ensures
        named_model(model_id(m)) == Some(m),
{
    reveal_strlit("embeddinggemma-300m");
    reveal_strlit("qwen3-embedding-0.6b");
    reveal_strlit("embeddinggemma");
    reveal_strlit("gemma");
    let id = model_id(m);
    assert forall|i: int| 0 <= i < id.len() implies text::ascii_lower(#[trigger] id[i]) == id[i] by {}
    assert(pieces::ascii_lowered(id) =~= id);
    assert(id.len() > 0);
}

// ---------------------------------------------------------------------------
// What is embedded
// ---------------------------------------------------------------------------

/// A table that vectors are put into.
#[derive(Debug, Clone)]
pub struct EmbedTarget {
    pub label: String,
    pub dir: String,
    pub table: String,
}

pub ghost struct TargetView {
    pub label: Seq<char>,
    pub dir: Seq<char>,
    pub table: Seq<char>,
}

impl View for EmbedTarget {
    type V = TargetView;

    open spec fn view(&self) -> TargetView {
        TargetView { label: self.label@, dir: self.dir@, table: self.table@ }
    }
}

pub open spec fn target_views(v: Seq<EmbedTarget>) -> Seq<TargetView> {
    v.map_values(|t: EmbedTarget| t@)
}

/// A local package: its name, and what is found of it.
pub open spec fn local_targets(
    name: Seq<char>,
    found: Registered,
    asked: Option<Seq<char>>,
) -> Seq<TargetView> {
    if found.docs && (asked is None || asked->0 == name) {
        seq![
            TargetView {
                label: name + " (docs)"@,
                dir: lookup::docs_under(found.dir@),
                table: "docs"@,
            },
        ]
    } else {
        seq![]
    }
}

/// The tables of a bundle.
pub open spec fn bundle_targets(b: BundleInfo, asked: Option<Seq<char>>) -> Seq<TargetView> {
    let wanted = asked is None || asked->0 == b.name@ || asked->0 == b.full_name();
    let docs = if wanted && b.spec_has_lance() {
        seq![
            TargetView {
                label: b.full_name() + " (docs)"@,
                dir: paths::joined(b.bundle_dir@, "lance"@),
                table: "docs"@,
            },
        ]
    } else {
        seq![]
    };
    let code = if wanted && b.spec_has_code() {
        seq![
            TargetView {
                label: b.full_name() + " (code)"@,
                dir: paths::joined(b.bundle_dir@, "code"@),
                table: "code"@,
            },
        ]
    } else {
        seq![]
    };
    docs + code
}

pub open spec fn all_local_targets(ls: Seq<(String, Registered)>, asked: Option<Seq<char>>) -> Seq<
    TargetView,
>
    decreases ls.len(),
{
    if ls.len() == 0 {
        seq![]
    } else {
        all_local_targets(ls.drop_last(), asked) + local_targets(ls.last().0@, ls.last().1, asked)
    }
}

pub open spec fn all_bundle_targets(bs: Seq<BundleInfo>, asked: Option<Seq<char>>) -> Seq<
    TargetView,
>
    decreases bs.len(),
{
    if bs.len() == 0 {
        seq![]
    } else {
        all_bundle_targets(bs.drop_last(), asked) + bundle_targets(bs.last(), asked)
    }
}

fn push_target(r: &mut Vec<EmbedTarget>, name: &str, mark: &str, dir: String, table: &str)
    ensures
        target_views(final(r)@) == target_views(old(r)@).push(
            TargetView { label: name@ + mark@, dir: dir@, table: table@ },
        ),
{
    let ghost before = target_views(r@);
    let ghost at = dir@;
    let mut label = name.to_owned();
    label.append(mark);
    r.push(EmbedTarget { label, dir, table: table.to_owned() });
    assert(target_views(r@) =~= before.push(
        TargetView { label: name@ + mark@, dir: at, table: table@ },
    ));
}

/// The tables to put vectors into: those of the package that is asked for, or all. A bundle
/// is asked for by its name, with or without its version.
pub fn embed_targets(
    locals: &Vec<(String, Registered)>,
    s: &Installed,
    asked: Option<&str>,
) -> (r: Vec<EmbedTarget>)
    ensures
        target_views(r@) == all_local_targets(locals@, pieces::opt_str(asked))
            + all_bundle_targets(store::all_bundles(*s), pieces::opt_str(asked)),
{
    let ghost a = pieces::opt_str(asked);
    let mut r: Vec<EmbedTarget> = Vec::new();
    let mut i: usize = 0;
    proof {
        assert(locals@.take(0) =~= seq![]);
        assert(target_views(r@) =~= seq![]);
    }
    while i < locals.len()
        invariant
            i <= locals@.len(),
            a == pieces::opt_str(asked),
            target_views(r@) == all_local_targets(locals@.take(i as int), a),
        decreases locals.len() - i,
    {
        let name = locals[i].0.as_str();
        let found = &locals[i].1;
        let ghost before = target_views(r@);
        proof {
            assert(locals@.take(i + 1).drop_last() =~= locals@.take(i as int));
            assert(locals@.take(i + 1).last() == locals@[i as int]);
        }
        let wanted = match asked {
            Some(n) => same_text(n, name),
            None => true,
        };
        if wanted && found.docs {
            push_target(&mut r, name, " (docs)", local_docs_dir(found.dir.as_str()), "docs");
        }
        assert(target_views(r@) =~= before + local_targets(name@, *found, a));
        i = i + 1;
    }
    assert(locals@.take(locals@.len() as int) =~= locals@);
    let ghost head = target_views(r@);
    let bs = list_all_bundles(s);
    let ghost all = store::all_bundles(*s);
    let mut k: usize = 0;
    proof {
        assert(all.take(0) =~= seq![]);
        assert(target_views(r@) =~= head + all_bundle_targets(all.take(0), a));
    }
    while k < bs.len()
        invariant
            k <= bs@.len(),
            a == pieces::opt_str(asked),
            all == store::all_bundles(*s),
            bs@.len() == all.len(),
            forall|j: int| 0 <= j < bs@.len() ==> *(#[trigger] bs@[j]) == all[j],
            target_views(r@) == head + all_bundle_targets(all.take(k as int), a),
        decreases bs.len() - k,
    {
        let b = bs[k];
        let ghost before = target_views(r@);
        proof {
            assert(all.take(k + 1).drop_last() =~= all.take(k as int));
            assert(all.take(k + 1).last() == *b);
        }
        let full = b.show_name();
        let wanted = match asked {
            Some(n) => same_text(n, b.name.as_str()) || same_text(n, full.as_str()),
            None => true,
        };
        if wanted && b.has_lance() {
            push_target(
                &mut r,
                full.as_str(),
                " (docs)",
                join_path(b.bundle_dir.as_str(), "lance"),
                "docs",
            );
        }
        if wanted && b.has_code() {
            push_target(
                &mut r,
                full.as_str(),
                " (code)",
                join_path(b.bundle_dir.as_str(), "code"),
                "code",
            );
        }
        proof {
            assert(target_views(r@) =~= before + bundle_targets(*b, a));
            assert(before + bundle_targets(*b, a) =~= head + all_bundle_targets(all.take(k + 1), a));
        }
        k = k + 1;
    }
    assert(all.take(all.len() as int) =~= all);
    r
}

/// The model that is downloaded, and the file that it is downloaded to: the model that is
/// asked for, in its own file, else the one of the settings.
pub fn pulled_model(asked: Option<&str>, cfg: &EmbeddingConfig, home: &Option<String>) -> (r: Result<
    (EmbeddingModel, String),
    String,
>)
    ensures
        match asked {
            Some(id) => match r {
                Ok((m, dest)) => named_model(id@) == Some(m) && dest@ == paths::joined(
                    reranker::model_dir(pieces::opt_text(*home)),
                    model_file(m),
                ),
                Err(e) => named_model(id@) is None && e@ == "unknown embedding model '"@ + id@
                    + "'. Known models: embeddinggemma-300m, qwen3-embedding-0.6b"@,
            },
            None => match r {
                Ok((m, dest)) => named_model(cfg.model_id@) == Some(m) && dest@ == embedding_path(
                    *cfg,
                    pieces::opt_text(*home),
                ),
                Err(e) => named_model(cfg.model_id@) is None && e@
                    == "unknown embedding model_id '"@ + cfg.model_id@
                    + "'. Known models: embeddinggemma-300m, qwen3-embedding-0.6b"@,
            },
        },
{
    match asked {
        Some(id) => match EmbeddingModel::from_id(id) {
            Some(m) => Ok((m, join_path(model_dir_in(home).as_str(), m.default_filename()))),
            None => {
                let mut e = "unknown embedding model '".to_owned();
                e.append(id);
                e.append("'. Known models: embeddinggemma-300m, qwen3-embedding-0.6b");
                Err(e)
            },
        },
        None => match cfg.model() {
            Ok(m) => Ok((m, cfg.model_path_in(home))),
            Err(e) => Err(e),
        },
    }
}

/// A model is downloaded only where it runs here. `command` is what was asked.
pub fn check_pull(provider: ProviderKind, command: &str) -> (r: Result<(), String>)
    ensures
        match r {
            Ok(_) => provider == ProviderKind::Local,
            Err(e) => provider != ProviderKind::Local && e@ == "`"@ + command@
                + "` only applies to `provider = \"local\"`. Remote providers (openai, copilot) do not require model downloads."@,
        },
{
    match provider {
        ProviderKind::Local => Ok(()),
        _ => {
            let mut e = "`".to_owned();
            e.append(command);
            e.append(
                "` only applies to `provider = \"local\"`. Remote providers (openai, copilot) do not require model downloads.",
            );
            Err(e)
        },
    }
}

/// Tables are embedded package by package: those of every local package and of every bundle,
/// in their order.
pub proof fn tables_are_embedded_one_by_one(
    a: Seq<(String, Registered)>,
    b: Seq<(String, Registered)>,
    l: (String, Registered),
    asked: Option<Seq<char>>,
)
    ensures
        all_local_targets(a + b, asked) == all_local_targets(a, asked) + all_local_targets(
            b,
            asked,
        ),
        all_local_targets(seq![l], asked) == local_targets(l.0@, l.1, asked),
    decreases b.len(),
{
    reveal_with_fuel(all_local_targets, 2);
    assert(seq![l].drop_last() =~= Seq::<(String, Registered)>::empty());
    assert(Seq::<TargetView>::empty() + local_targets(l.0@, l.1, asked) =~= local_targets(
        l.0@,
        l.1,
        asked,
    ));
    if b.len() == 0 {
        assert(a + b =~= a);
        assert(all_local_targets(a, asked) + all_local_targets(b, asked) =~= all_local_targets(
            a,
            asked,
        ));
    } else {
        let t = b.drop_last();
        tables_are_embedded_one_by_one(a, t, l, asked);
        assert((a + b).drop_last() =~= a + t);
        let x = all_local_targets(a, asked);
        let y = all_local_targets(t, asked);
        let z = local_targets(b.last().0@, b.last().1, asked);
        assert(x + y + z =~= x + (y + z));
    }
}

/// The bundles' tables are embedded bundle by bundle.
pub proof fn bundles_are_embedded_one_by_one(
    a: Seq<BundleInfo>,
    b: Seq<BundleInfo>,
    l: BundleInfo,
    asked: Option<Seq<char>>,
)
    ensures
        all_bundle_targets(a + b, asked) == all_bundle_targets(a, asked) + all_bundle_targets(
            b,
            asked,
        ),
        all_bundle_targets(seq![l], asked) == bundle_targets(l, asked),
    decreases b.len(),
{
    reveal_with_fuel(all_bundle_targets, 2);
    assert(seq![l].drop_last() =~= Seq::<BundleInfo>::empty());
    assert(Seq::<TargetView>::empty() + bundle_targets(l, asked) =~= bundle_targets(l, asked));
    if b.len() == 0 {
        assert(a + b =~= a);
        assert(all_bundle_targets(a, asked) + all_bundle_targets(b, asked) =~= all_bundle_targets(
            a,
            asked,
        ));
    } else {
        let t = b.drop_last();
        bundles_are_embedded_one_by_one(a, t, l, asked);
        assert((a + b).drop_last() =~= a + t);
        let x = all_bundle_targets(a, asked);
        let y = all_bundle_targets(t, asked);
        let z = bundle_targets(b.last(), asked);
        assert(x + y + z =~= x + (y + z));
    }
}

/// A package that is asked for, or any package where none is, has its tables embedded: the
/// documentation and the code of a bundle, the documentation of a local package. No other
/// package has.
pub proof fn packages_asked_for_are_embedded(
    name: Seq<char>,
    found: Registered,
    b: BundleInfo,
    asked: Seq<char>,
)
    ensures
        found.docs ==> local_targets(name, found, None).len() == 1 && local_targets(
            name,
            found,
            None,
        )[0].table == "docs"@,
        found.docs ==> local_targets(name, found, Some(name)) == local_targets(name, found, None),
        !found.docs || asked != name ==> local_targets(name, found, Some(asked)).len() == 0,
        ({
            let all = bundle_targets(b, None);
            let has = |dir: Seq<char>, table: Seq<char>| exists|i: int|
                0 <= i < all.len() && (#[trigger] all[i]).dir == dir && all[i].table == table;
            &&& b.spec_has_lance() ==> has(paths::joined(b.bundle_dir@, "lance"@), "docs"@)
            &&& b.spec_has_code() ==> has(paths::joined(b.bundle_dir@, "code"@), "code"@)
            &&& !b.spec_has_lance() && !b.spec_has_code() ==> all.len() == 0
            &&& bundle_targets(b, Some(b.name@)) == all
            &&& bundle_targets(b, Some(b.full_name())) == all
            &&& asked != b.name@ && asked != b.full_name() ==> bundle_targets(
                b,
                Some(asked),
            ).len() == 0
        }),
{
    let all = bundle_targets(b, None);
    if b.spec_has_lance() {
        assert(all[0].table == "docs"@);
    }
    if b.spec_has_code() {
        assert(all[all.len() - 1].table == "code"@);
    }
}

/// Where nothing is set, embedding is on, and done here by the default model.
pub proof fn embedding_is_on_by_default(c: EmbeddingConfig)
    requires
        is_default(c),
    ensures
        c.enabled,
        named_model(c.model_id@) == Some(EmbeddingModel::Gemma300M),
        c.provider == ProviderKind::Local,
        c.model is None && c.model_url is None && c.openai is None,
        c.n_ctx == 2048 && c.n_threads == 0 && c.gpu_layers == 0,
{
    recorded_ids_name_their_model(EmbeddingModel::Gemma300M);
}

} // verus!
