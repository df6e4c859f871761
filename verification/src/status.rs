//! A report on an installation: the build, the models, the workspace, the user's store
//! and the code graph's tool.

use vstd::prelude::*;

use crate::accel;
use crate::accel::{default_threads, gpu_build_status, resolve_threads, GpuBackends, GpuMode};
use crate::embedding;
use crate::embedding::EmbeddingConfig;
use crate::manifest::WorkspaceManifest;
use crate::paths;
use crate::paths::join_path;
use crate::pieces;
use crate::pieces::{copy_opt, join_texts, write_decimal, write_integer};
use crate::providers::ProviderKind;
use crate::query_expansion;
use crate::query_expansion::QueryExpansionConfig;
use crate::reranker;
use crate::reranker::{home_text, RerankerConfig};
use crate::strmap;
use crate::strmap::comes_before;

verus! {

// ---------------------------------------------------------------------------
// The build
// ---------------------------------------------------------------------------

/// What a build of the program is.
#[derive(Debug, Clone)]
pub struct Build {
    pub version: String,
    /// The commit that it was built from, where that is known.
    pub commit: Option<String>,
    pub os: String,
    pub arch: String,
    /// Whether it can rerank in this process.
    pub reranker: bool,
    /// Whether it can embed in this process.
    pub embeddings: bool,
    pub gpu: GpuBackends,
    /// The logical cores of the machine.
    pub cores: usize,
}

/// The optional features of a build, always in one order.
pub open spec fn features(b: Build) -> Seq<Seq<char>> {
    (if b.reranker {
        seq!["reranker"@]
    } else {
        seq![]
    }) + (if b.embeddings {
        seq!["embeddings"@]
    } else {
        seq![]
    }) + accel::backend_names(b.gpu)
}

/// The optional features of a build: those that it has, and no other.
pub fn build_features(b: &Build) -> (r: Vec<String>)
    ensures
        pieces::texts(r@) == features(*b),
{
    let mut r: Vec<String> = Vec::new();
    if b.reranker {
        r.push("reranker".to_owned());
    }
    if b.embeddings {
        r.push("embeddings".to_owned());
    }
    if b.gpu.cuda {
        r.push("cuda".to_owned());
    }
    if b.gpu.vulkan {
        r.push("vulkan".to_owned());
    }
    if b.gpu.rocm {
        r.push("rocm".to_owned());
    }
    if b.gpu.metal {
        r.push("metal".to_owned());
    }
    assert(pieces::texts(r@) =~= features(*b));
    r
}

/// No feature is reported twice.
pub proof fn features_do_not_repeat(b: Build)
    ensures
        features(b).no_duplicates(),
{
    reveal_strlit("reranker");
    reveal_strlit("embeddings");
    assert("reranker"@.len() == 8 && "embeddings"@.len() == 10);
    accel::lemma_backend_names(b.gpu);
    let names = accel::backend_names(b.gpu);
    let own = (if b.reranker {
        seq!["reranker"@]
    } else {
        seq![]
    }) + (if b.embeddings {
        seq!["embeddings"@]
    } else {
        seq![]
    });
    assert(own.no_duplicates());
    assert(forall|i: int| 0 <= i < own.len() ==> (#[trigger] own[i]).len() >= 8);
    let all = own + names;
    assert forall|i: int, j: int| 0 <= i < j < all.len() implies all[i] != all[j] by {
        if j < own.len() {
            assert(own[i] != own[j]);
        } else if i >= own.len() {
            assert(names[i - own.len()] != names[j - own.len()]);
        } else {
            assert(own[i].len() >= 8);
            assert(names[j - own.len()].len() <= 6);
        }
    }
    assert(features(b) =~= all);
}

/// The commit of a build, as it is reported.
pub open spec fn commit_text(c: Option<Seq<char>>) -> Seq<char> {
    match c {
        Some(s) => s,
        None => "unknown"@,
    }
}

// ---------------------------------------------------------------------------
// The models
// ---------------------------------------------------------------------------

/// How a backend is called.
pub open spec fn provider_name(p: ProviderKind) -> Seq<char> {
    match p {
        ProviderKind::Local => "local"@,
        ProviderKind::OpenAi => "openai"@,
        ProviderKind::Copilot => "copilot"@,
    }
}

/// How a backend is called.
pub fn provider_label(p: &ProviderKind) -> (r: String)
    ensures
        r@ == provider_name(*p),
{
    match p {
        ProviderKind::Local => "local".to_owned(),
        ProviderKind::OpenAi => "openai".to_owned(),
        ProviderKind::Copilot => "copilot".to_owned(),
    }
}

/// The state of one capability.
#[derive(Debug, Clone)]
pub struct ModelStatus {
    pub enabled: bool,
    pub provider: String,
    /// The model, where the capability has a choice of models.
    pub model_id: Option<String>,
    pub gpu: String,
    pub gpu_layers: u32,
    pub cpu_threads: i32,
    /// The model's file. It says something of local inference only.
    pub model_path: String,
    pub model_present: bool,
    pub model_size_bytes: Option<u64>,
}

/// What the settings and the model's file say of a capability: `size` is that of the
/// file, where there is one.
pub open spec fn describes(
    m: ModelStatus,
    enabled: bool,
    provider: ProviderKind,
    gpu: GpuMode,
    gpu_layers: u32,
    threads: int,
    path: Seq<char>,
    size: Option<u64>,
) -> bool {
    m.enabled == enabled && m.provider@ == provider_name(provider) && m.gpu@ == accel::gpu_name(gpu)
        && m.gpu_layers == gpu_layers && m.cpu_threads == threads && m.model_path@ == path
        && m.model_present == (size is Some) && m.model_size_bytes == size
}

/// How an embedding model is reported: its name and its dimension, or what is wrong with
/// the settings.
pub open spec fn model_label(id: Seq<char>) -> Seq<char> {
    match embedding::named_model(id) {
        Some(m) => embedding::model_id(m) + " (dim "@ + pieces::decimal(
            embedding::dimension(m) as nat,
        ) + ")"@,
        None => "<invalid> — "@ + embedding::unknown_model(id),
    }
}

/// The state of embedding.
pub fn embedding_status(
    cfg: &EmbeddingConfig,
    home: &Option<String>,
    size: Option<u64>,
    cores: usize,
) -> (m: ModelStatus)
    ensures
        describes(
            m,
            cfg.enabled,
            cfg.provider,
            cfg.gpu,
            cfg.gpu_layers,
            accel::threads(cfg.n_threads, cores),
            embedding::embedding_path(*cfg, pieces::opt_text(*home)),
            size,
        ),
        pieces::opt_text(m.model_id) == Some(model_label(cfg.model_id@)),
{
    let label = match cfg.model() {
        Ok(m) => {
            let mut s = m.id().to_owned();
            s.append(" (dim ");
            s.append(write_decimal(m.dim() as u64).as_str());
            s.append(")");
            s
        },
        Err(e) => {
            let mut s = "<invalid> — ".to_owned();
            s.append(e.as_str());
            s
        },
    };
    ModelStatus {
        enabled: cfg.enabled,
        provider: provider_label(&cfg.provider),
        model_id: Some(label),
        gpu: cfg.gpu.as_str().to_owned(),
        gpu_layers: cfg.gpu_layers,
        cpu_threads: resolve_threads(cfg.n_threads, cores),
        model_path: cfg.model_path_in(home),
        model_present: size.is_some(),
        model_size_bytes: size,
    }
}

/// The state of reranking.
pub fn reranker_status(
    cfg: &RerankerConfig,
    home: &Option<String>,
    size: Option<u64>,
    cores: usize,
) -> (m: ModelStatus)
    ensures
        describes(
            m,
            cfg.enabled,
            cfg.provider,
            cfg.gpu,
            cfg.gpu_layers,
            accel::threads(cfg.n_threads, cores),
            reranker::reranker_path(*cfg, pieces::opt_text(*home)),
            size,
        ),
        m.model_id is None,
{
    ModelStatus {
        enabled: cfg.enabled,
        provider: provider_label(&cfg.provider),
        model_id: None,
        gpu: cfg.gpu.as_str().to_owned(),
        gpu_layers: cfg.gpu_layers,
        cpu_threads: resolve_threads(cfg.n_threads, cores),
        model_path: cfg.model_path_in(home),
        model_present: size.is_some(),
        model_size_bytes: size,
    }
}

/// The state of query expansion.
pub fn query_expansion_status(
    cfg: &QueryExpansionConfig,
    home: &Option<String>,
    size: Option<u64>,
    cores: usize,
) -> (m: ModelStatus)
    ensures
        describes(
            m,
            cfg.enabled,
            cfg.provider,
            cfg.gpu,
            cfg.gpu_layers,
            accel::threads(cfg.n_threads, cores),
            query_expansion::expansion_path(*cfg, pieces::opt_text(*home)),
            size,
        ),
        m.model_id is None,
{
    ModelStatus {
        enabled: cfg.enabled,
        provider: provider_label(&cfg.provider),
        model_id: None,
        gpu: cfg.gpu.as_str().to_owned(),
        gpu_layers: cfg.gpu_layers,
        cpu_threads: resolve_threads(cfg.n_threads, cores),
        model_path: cfg.model_path_in(home),
        model_present: size.is_some(),
        model_size_bytes: size,
    }
}

// ---------------------------------------------------------------------------
// The stores
// ---------------------------------------------------------------------------

/// The state of a workspace.
#[derive(Debug, Clone)]
pub struct WorkspaceStatus {
    pub directory: Option<String>,
    pub manifest_present: bool,
    pub lock_present: bool,
    pub bundles: usize,
}

/// The state of a workspace, where there is one: a workspace that is missing has nothing.
pub fn workspace_status(
    dir: Option<&str>,
    manifest_present: bool,
    lock_present: bool,
    bundles: usize,
) -> (r: WorkspaceStatus)
    ensures
        pieces::opt_text(r.directory) == pieces::opt_str(dir),
        r.manifest_present == (dir is Some && manifest_present),
        r.lock_present == (dir is Some && lock_present),
        r.bundles == (if dir is Some {
            bundles
        } else {
            0
        }),
{
    match dir {
        Some(d) => WorkspaceStatus {
            directory: Some(d.to_owned()),
            manifest_present,
            lock_present,
            bundles,
        },
        None => WorkspaceStatus {
            directory: None,
            manifest_present: false,
            lock_present: false,
            bundles: 0,
        },
    }
}

/// A model's file.
#[derive(Debug, Clone)]
pub struct ModelFile {
    pub name: String,
    pub size_bytes: u64,
}

/// What a model's file is.
pub ghost struct FileView {
    pub name: Seq<char>,
    pub size: u64,
}

impl View for ModelFile {
    type V = FileView;

    open spec fn view(&self) -> FileView {
        FileView { name: self.name@, size: self.size_bytes }
    }
}

pub open spec fn file_views(v: Seq<ModelFile>) -> Seq<FileView> {
    v.map_values(|f: ModelFile| f@)
}

/// Where a name goes among sorted files: behind those that come no later.
pub open spec fn file_slot(fs: Seq<FileView>, name: Seq<char>) -> int
    decreases fs.len(),
{
    if fs.len() == 0 || !strmap::text_lt(name, fs.last().name) {
        fs.len() as int
    } else {
        file_slot(fs.drop_last(), name)
    }
}

/// Files by name; those of one name stay in their order.
pub open spec fn by_name(fs: Seq<FileView>) -> Seq<FileView>
    decreases fs.len(),
{
    if fs.len() == 0 {
        seq![]
    } else {
        let before = by_name(fs.drop_last());
        before.insert(file_slot(before, fs.last().name), fs.last())
    }
}

proof fn lemma_file_slot(fs: Seq<FileView>, name: Seq<char>)
    ensures
        0 <= file_slot(fs, name) <= fs.len(),
        forall|j: int|
            file_slot(fs, name) <= j < fs.len() ==> strmap::text_lt(name, (#[trigger] fs[j]).name),
        file_slot(fs, name) > 0 ==> !strmap::text_lt(name, fs[file_slot(fs, name) - 1].name),
    decreases fs.len(),
{
    if fs.len() > 0 && strmap::text_lt(name, fs.last().name) {
        lemma_file_slot(fs.drop_last(), name);
        let s = file_slot(fs, name);
        assert forall|j: int| s <= j < fs.len() implies strmap::text_lt(
            name,
            (#[trigger] fs[j]).name,
        ) by {
            if j < fs.len() - 1 {
                assert(fs.drop_last()[j] == fs[j]);
            }
        }
        if s > 0 {
            assert(fs.drop_last()[s - 1] == fs[s - 1]);
        }
    }
}

/// Sort files by name.
pub fn sort_models(files: &Vec<ModelFile>) -> (r: Vec<ModelFile>)
    ensures
        file_views(r@) == by_name(file_views(files@)),
{
    let ghost all = file_views(files@);
    let mut r: Vec<ModelFile> = Vec::new();
    let mut i: usize = 0;
    assert(file_views(r@) =~= by_name(all.take(0)));
    while i < files.len()
        invariant
            i <= files@.len(),
            all == file_views(files@),
            file_views(r@) == by_name(all.take(i as int)),
        decreases files.len() - i,
    {
        let f = ModelFile { name: files[i].name.clone(), size_bytes: files[i].size_bytes };
        assert(f@ == all[i as int]);
        let ghost before = file_views(r@);
        let mut k: usize = r.len();
        assert(before.take(k as int) =~= before);
        while k > 0 && comes_before(f.name.as_str(), r[k - 1].name.as_str())
            invariant
                k <= r@.len(),
                before == file_views(r@),
                file_slot(before, f.name@) == file_slot(before.take(k as int), f.name@),
            decreases k,
        {
            proof {
                let t = before.take(k as int);
                assert(t.last() == before[k - 1]);
                assert(before[k - 1] == r@[k - 1]@);
                assert(t.drop_last() =~= before.take(k - 1));
            }
            k = k - 1;
            if k == 0 {
                assert(before.take(0).len() == 0);
            }
        }
        proof {
            let t = before.take(k as int);
            if k > 0 {
                assert(t.last() == before[k - 1]);
                assert(before[k - 1] == r@[k - 1]@);
            }
            assert(file_slot(before, f.name@) == k);
        }
        let ghost file = f@;
        r.insert(k, f);
        proof {
            assert(file_views(r@) =~= before.insert(k as int, file));
            assert(all.take(i + 1).drop_last() =~= all.take(i as int));
        }
        i = i + 1;
    }
    assert(all.take(all.len() as int) =~= all);
    r
}

/// Sorted files are all the files, and none stands behind one that comes later.
pub proof fn sorted_models_are_in_order(fs: Seq<FileView>)
    ensures
        by_name(fs).to_multiset() == fs.to_multiset(),
        forall|i: int, j: int|
            0 <= i < j < by_name(fs).len() ==> !strmap::text_lt(
                (#[trigger] by_name(fs)[j]).name,
                (#[trigger] by_name(fs)[i]).name,
            ),
    decreases fs.len(),
{
    broadcast use vstd::seq_lib::group_to_multiset_ensures;

    if fs.len() > 0 {
        let rest = fs.drop_last();
        let x = fs.last();
        sorted_models_are_in_order(rest);
        let before = by_name(rest);
        let k = file_slot(before, x.name);
        lemma_file_slot(before, x.name);
        let now = by_name(fs);
        assert(fs =~= rest.push(x));
        assert(now == before.insert(k, x));
        assert forall|i: int, j: int| 0 <= i < j < now.len() implies !strmap::text_lt(
            (#[trigger] now[j]).name,
            (#[trigger] now[i]).name,
        ) by {
            let a = now[i].name;
            let b = now[j].name;
            if i < k && j == k {
                if strmap::text_lt(b, a) {
                    // What stands before the new file comes no later than the one right
                    // before it, which comes no later than the new one.
                    let c = before[k - 1].name;
                    if i < k - 1 {
                        strmap::lemma_text_lt_total(c, a);
                        if strmap::text_lt(a, c) {
                            strmap::lemma_text_lt_transitive(b, a, c);
                        }
                    }
                }
            } else if i == k {
                assert(now[j] == before[j - 1]);
                if strmap::text_lt(b, a) {
                    strmap::lemma_text_lt_transitive(a, b, a);
                    strmap::lemma_text_lt_irreflexive(a);
                }
            } else {
                let p = if i < k {
                    i
                } else {
                    i - 1
                };
                let q = if j < k {
                    j
                } else {
                    j - 1
                };
                assert(now[i] == before[p] && now[j] == before[q]);
            }
        }
    } else {
        assert(by_name(fs) =~= fs);
    }
}

/// The state of the user's store.
#[derive(Debug, Clone)]
pub struct GlobalStatus {
    pub directory: String,
    pub exists: bool,
    pub bundles: usize,
    pub models: Vec<ModelFile>,
    pub local_packages: usize,
}

/// The state of the store of a user whose home directory is `home`.
pub fn global_status(
    home: &Option<String>,
    exists: bool,
    bundles: usize,
    models: &Vec<ModelFile>,
    local_packages: usize,
) -> (r: GlobalStatus)
    ensures
        r.directory@ == paths::joined(reranker::home_or_dot(pieces::opt_text(*home)), ".sempkg"@),
        r.exists == exists,
        r.bundles == bundles,
        file_views(r.models@) == by_name(file_views(models@)),
        r.local_packages == local_packages,
{
    GlobalStatus {
        directory: join_path(home_text(home).as_str(), ".sempkg"),
        exists,
        bundles,
        models: sort_models(models),
        local_packages,
    }
}

/// The state of the code graph's tool.
#[derive(Debug, Clone)]
pub struct CodegraphStatus {
    pub on_path: bool,
    pub path: Option<String>,
    pub version: String,
}

/// The state of the code graph's tool: where it is, and what it says of its version.
pub fn codegraph_status(path: &Option<String>, version: &str) -> (r: CodegraphStatus)
    ensures
        r.on_path == (path is Some),
        pieces::opt_text(r.path) == pieces::opt_text(*path),
        r.version@ == (if path is Some {
            version@
        } else {
            "unknown"@
        }),
{
    CodegraphStatus {
        on_path: path.is_some(),
        path: copy_opt(path),
        version: if path.is_some() {
            version.to_owned()
        } else {
            "unknown".to_owned()
        },
    }
}

// ---------------------------------------------------------------------------
// The report
// ---------------------------------------------------------------------------

/// The settings of every capability.
#[derive(Debug, Clone)]
pub struct Sections {
    pub embedding: EmbeddingConfig,
    pub reranker: RerankerConfig,
    pub query_expansion: QueryExpansionConfig,
}

/// The settings of a workspace: a section that it does not have, and every section where
/// there is no manifest, has its defaults.
pub fn sections(manifest: Option<WorkspaceManifest>) -> (r: Sections)
    ensures
        match manifest {
            Some(m) => {
                &&& match m.embedding {
                    Some(c) => r.embedding == c,
                    None => embedding::is_default(r.embedding),
                }
                &&& match m.reranker {
                    Some(c) => r.reranker == c,
                    None => reranker::is_default(r.reranker),
                }
                &&& match m.query_expansion {
                    Some(c) => r.query_expansion == c,
                    None => query_expansion::is_default(r.query_expansion),
                }
            },
            None => {
                &&& embedding::is_default(r.embedding)
                &&& reranker::is_default(r.reranker)
                &&& query_expansion::is_default(r.query_expansion)
            },
        },
{
    match manifest {
        Some(m) => Sections {
            embedding: match m.embedding {
                Some(c) => c,
                None => EmbeddingConfig::default(),
            },
            reranker: match m.reranker {
                Some(c) => c,
                None => RerankerConfig::default(),
            },
            query_expansion: match m.query_expansion {
                Some(c) => c,
                None => QueryExpansionConfig::default(),
            },
        },
        None => Sections {
            embedding: EmbeddingConfig::default(),
            reranker: RerankerConfig::default(),
            query_expansion: QueryExpansionConfig::default(),
        },
    }
}

/// The sizes of the models' files, of those that are there.
#[derive(Debug, Clone, Copy)]
pub struct ModelSizes {
    pub embedding: Option<u64>,
    pub reranker: Option<u64>,
    pub query_expansion: Option<u64>,
}

/// Everything that is reported.
#[derive(Debug, Clone)]
pub struct DiagnosticReport {
    pub version: String,
    pub commit: String,
    pub os: String,
    pub arch: String,
    pub features: Vec<String>,
    pub gpu_build: String,
    pub cpu_threads: i32,
    pub embedding: ModelStatus,
    pub reranker: ModelStatus,
    pub query_expansion: ModelStatus,
    pub workspace: WorkspaceStatus,
    pub global: GlobalStatus,
    pub codegraph: CodegraphStatus,
}

/// Put the report together. Nothing in it is a failure: what is missing is reported as
/// missing.
pub fn gather(
    build: &Build,
    sections: &Sections,
    home: &Option<String>,
    sizes: &ModelSizes,
    workspace: WorkspaceStatus,
    global: GlobalStatus,
    codegraph: CodegraphStatus,
) -> (r: DiagnosticReport)
    ensures
        r.version@ == build.version@,
        r.commit@ == commit_text(pieces::opt_text(build.commit)),
        r.os@ == build.os@,
        r.arch@ == build.arch@,
        pieces::texts(r.features@) == features(*build),
        r.gpu_build@ == accel::gpu_text(build.gpu),
        r.cpu_threads == accel::threads(0, build.cores),
        describes(
            r.embedding,
            sections.embedding.enabled,
            sections.embedding.provider,
            sections.embedding.gpu,
            sections.embedding.gpu_layers,
            accel::threads(sections.embedding.n_threads, build.cores),
            embedding::embedding_path(sections.embedding, pieces::opt_text(*home)),
            sizes.embedding,
        ),
        pieces::opt_text(r.embedding.model_id) == Some(model_label(sections.embedding.model_id@)),
        describes(
            r.reranker,
            sections.reranker.enabled,
            sections.reranker.provider,
            sections.reranker.gpu,
            sections.reranker.gpu_layers,
            accel::threads(sections.reranker.n_threads, build.cores),
            reranker::reranker_path(sections.reranker, pieces::opt_text(*home)),
            sizes.reranker,
        ),
        r.reranker.model_id is None,
        describes(
            r.query_expansion,
            sections.query_expansion.enabled,
            sections.query_expansion.provider,
            sections.query_expansion.gpu,
            sections.query_expansion.gpu_layers,
            accel::threads(sections.query_expansion.n_threads, build.cores),
            query_expansion::expansion_path(sections.query_expansion, pieces::opt_text(*home)),
            sizes.query_expansion,
        ),
        r.query_expansion.model_id is None,
        r.workspace == workspace,
        r.global == global,
        r.codegraph == codegraph,
{
    DiagnosticReport {
        version: build.version.clone(),
        commit: match &build.commit {
            Some(c) => c.clone(),
            None => "unknown".to_owned(),
        },
        os: build.os.clone(),
        arch: build.arch.clone(),
        features: build_features(build),
        gpu_build: gpu_build_status(build.gpu),
        cpu_threads: default_threads(build.cores),
        embedding: embedding_status(&sections.embedding, home, sizes.embedding, build.cores),
        reranker: reranker_status(&sections.reranker, home, sizes.reranker, build.cores),
        query_expansion: query_expansion_status(
            &sections.query_expansion,
            home,
            sizes.query_expansion,
            build.cores,
        ),
        workspace,
        global,
        codegraph,
    }
}

// ---------------------------------------------------------------------------
// Sizes
// ---------------------------------------------------------------------------

/// A quotient rounded to the nearest whole number, ties to the even one.
pub open spec fn rounded(n: nat, unit: nat) -> nat {
    let q = n / unit;
    let r = n % unit;
    if 2 * r > unit || (2 * r == unit && q % 2 == 1) {
        q + 1
    } else {
        q
    }
}

/// The distance between the doubles around a whole number.
pub open spec fn spacing(n: nat) -> nat
    decreases n,
{
    if n < 0x20_0000_0000_0000 {
        1
    } else {
        2 * spacing(n / 2)
    }
}

/// The double that is nearest to a whole number.
pub open spec fn nearest_double(n: nat) -> nat {
    rounded(n, spacing(n)) * spacing(n)
}

pub const MEGABYTE: u64 = 0x10_0000;

pub const GIGABYTE: u64 = 0x4000_0000;

/// Tenths, written with one decimal.
pub open spec fn tenths_text(t: nat) -> Seq<char> {
    pieces::decimal(t / 10) + "."@ + pieces::decimal(t % 10)
}

/// How a file size is read by people: in gigabytes from one gigabyte on, else in megabytes.
pub open spec fn size_text(bytes: u64) -> Seq<char> {
    let b = nearest_double(bytes as nat);
    if b >= GIGABYTE {
        tenths_text(rounded(10 * b, GIGABYTE as nat)) + " GB"@
    } else {
        tenths_text(rounded(10 * b, MEGABYTE as nat)) + " MB"@
    }
}

proof fn lemma_spacing(n: nat)
    ensures
        1 <= spacing(n),
        n >= 0x20_0000_0000_0000 ==> spacing(n) <= n,
    decreases n,
{
    if n >= 0x20_0000_0000_0000 {
        lemma_spacing(n / 2);
        if n / 2 < 0x20_0000_0000_0000 {
            assert(spacing(n / 2) == 1);
        }
    }
}

fn spacing_of(n: u64) -> (r: u64)
    ensures
        r == spacing(n as nat),
    decreases n,
{
    if n < 0x20_0000_0000_0000 {
        1
    } else {
        let half = spacing_of(n / 2);
        proof {
            lemma_spacing(n as nat);
        }
        2 * half
    }
}

fn round_quotient(n: u128, unit: u128) -> (r: u128)
    requires
        0 < unit <= 0xffff_ffff_ffff_ffff,
        n <= 0xff_ffff_ffff_ffff_ffff,
    ensures
        r == rounded(n as nat, unit as nat),
        r <= n / unit + 1,
{
    let q: u128 = n / unit;
    let rem: u128 = n % unit;
    proof {
        assert(q <= n) by (nonlinear_arith)
            requires
                q == n / unit,
                unit > 0,
        ;
    }
    if 2 * rem > unit || (2 * rem == unit && q % 2 == 1) {
        q + 1
    } else {
        q
    }
}

/// A file size as people read it.
pub fn human_size(bytes: u64) -> (r: String)
    ensures
        r@ == size_text(bytes),
{
    let step = spacing_of(bytes);
    proof {
        lemma_spacing(bytes as nat);
    }
    let q = round_quotient(bytes as u128, step as u128);
    proof {
        assert(q * step <= bytes + step) by (nonlinear_arith)
            requires
                q <= bytes as int / step as int + 1,
                step > 0,
        ;
    }
    let b: u128 = q * step as u128;
    let (unit, name) = if b >= GIGABYTE as u128 {
        (GIGABYTE, " GB")
    } else {
        (MEGABYTE, " MB")
    };
    let t = round_quotient(10 * b, unit as u128);
    let mut r = write_decimal((t / 10) as u64);
    r.append(".");
    r.append(write_decimal((t % 10) as u64).as_str());
    r.append(name);
    r
}

// ---------------------------------------------------------------------------
// The text
// ---------------------------------------------------------------------------

pub open spec fn flag_text(b: bool) -> Seq<char> {
    if b {
        "true"@
    } else {
        "false"@
    }
}

pub open spec fn presence_text(b: bool) -> Seq<char> {
    if b {
        "present"@
    } else {
        "missing"@
    }
}

/// `true` or `false`.
pub fn show_flag(b: bool) -> (r: &'static str)
    ensures
        r@ == flag_text(b),
{
    if b {
        "true"
    } else {
        "false"
    }
}

fn show_presence(b: bool) -> (r: &'static str)
    ensures
        r@ == presence_text(b),
{
    if b {
        "present"
    } else {
        "missing"
    }
}

pub open spec fn model_line(id: Option<Seq<char>>) -> Seq<char> {
    match id {
        Some(t) => "  model       : "@ + t + "\n"@,
        None => seq![],
    }
}

pub open spec fn override_text(layers: u32) -> Seq<char> {
    if layers > 0 {
        " (manual override: "@ + pieces::decimal(layers as nat) + " layers)"@
    } else {
        seq![]
    }
}

pub open spec fn state_text(size: Option<u64>) -> Seq<char> {
    match size {
        Some(n) => "✓ present ("@ + size_text(n) + ")"@,
        None => "✗ missing"@,
    }
}

/// The section of a capability.
pub open spec fn model_section(title: Seq<char>, m: ModelStatus) -> Seq<char> {
    "\n["@ + title + "]\n"@ + "  enabled     : "@ + flag_text(m.enabled) + "\n"@
        + "  provider    : "@ + m.provider@ + "\n"@ + model_line(pieces::opt_text(m.model_id))
        + "  gpu         : "@ + m.gpu@ + override_text(m.gpu_layers) + "\n"@ + "  cpu threads : "@
        + pieces::integer_text(m.cpu_threads as int) + "\n"@ + "  model file  : "@ + m.model_path@ + "\n"@
        + "  model state : "@ + state_text(m.model_size_bytes) + "\n"@
}

fn show_model_section(title: &str, m: &ModelStatus) -> (r: String)
    ensures
        r@ == model_section(title@, *m),
{
    let mut r = "\n[".to_owned();
    r.append(title);
    r.append("]\n");
    r.append("  enabled     : ");
    r.append(show_flag(m.enabled));
    r.append("\n");
    r.append("  provider    : ");
    r.append(m.provider.as_str());
    r.append("\n");
    let ghost before = r@;
    match &m.model_id {
        Some(id) => {
            r.append("  model       : ");
            r.append(id.as_str());
            r.append("\n");
        },
        None => {},
    }
    assert(r@ =~= before + model_line(pieces::opt_text(m.model_id)));
    r.append("  gpu         : ");
    r.append(m.gpu.as_str());
    let ghost before = r@;
    if m.gpu_layers > 0 {
        r.append(" (manual override: ");
        r.append(write_decimal(m.gpu_layers as u64).as_str());
        r.append(" layers)");
    }
    assert(r@ =~= before + override_text(m.gpu_layers));
    r.append("\n");
    r.append("  cpu threads : ");
    r.append(write_integer(m.cpu_threads as i64).as_str());
    r.append("\n");
    r.append("  model file  : ");
    r.append(m.model_path.as_str());
    r.append("\n");
    r.append("  model state : ");
    let ghost before = r@;
    match m.model_size_bytes {
        Some(n) => {
            r.append("✓ present (");
            r.append(human_size(n).as_str());
            r.append(")");
        },
        None => {
            r.append("✗ missing");
        },
    }
    assert(r@ =~= before + state_text(m.model_size_bytes));
    r.append("\n");
    r
}

pub open spec fn features_text(fs: Seq<Seq<char>>) -> Seq<char> {
    if fs.len() == 0 {
        "(none)"@
    } else {
        pieces::join(fs, ", "@)
    }
}

/// The head of the report: the build.
pub open spec fn build_section(r: DiagnosticReport) -> Seq<char> {
    "sempkg "@ + r.version@ + "\n"@ + "  commit      : "@ + r.commit@ + "\n"@
        + "  os / arch   : "@ + r.os@ + " / "@ + r.arch@ + "\n"@ + "  features    : "@
        + features_text(pieces::texts(r.features@)) + "\n"@ + "  gpu build   : "@ + r.gpu_build@
        + "\n"@ + "  cpu threads : "@ + pieces::integer_text(r.cpu_threads as int) + "\n"@
}

fn show_build(d: &DiagnosticReport) -> (r: String)
    ensures
        r@ == build_section(*d),
{
    let mut r = "sempkg ".to_owned();
    r.append(d.version.as_str());
    r.append("\n");
    r.append("  commit      : ");
    r.append(d.commit.as_str());
    r.append("\n");
    r.append("  os / arch   : ");
    r.append(d.os.as_str());
    r.append(" / ");
    r.append(d.arch.as_str());
    r.append("\n");
    r.append("  features    : ");
    if d.features.len() == 0 {
        r.append("(none)");
    } else {
        r.append(join_texts(&d.features, ", ").as_str());
    }
    r.append("\n");
    r.append("  gpu build   : ");
    r.append(d.gpu_build.as_str());
    r.append("\n");
    r.append("  cpu threads : ");
    r.append(write_integer(d.cpu_threads as i64).as_str());
    r.append("\n");
    r
}

pub open spec fn directory_text(dir: Option<Seq<char>>) -> Seq<char> {
    match dir {
        Some(d) => d,
        None => "(none detected)"@,
    }
}

/// The section of the workspace.
pub open spec fn workspace_section(w: WorkspaceStatus) -> Seq<char> {
    "\n[workspace]\n"@ + "  directory   : "@ + directory_text(pieces::opt_text(w.directory))
        + "\n"@ + "  sempkg.toml : "@ + presence_text(w.manifest_present) + "\n"@
        + "  sempkg.lock : "@ + presence_text(w.lock_present) + "\n"@ + "  bundles     : "@
        + pieces::decimal(w.bundles as nat) + "\n"@
}

fn show_workspace(w: &WorkspaceStatus) -> (r: String)
    ensures
        r@ == workspace_section(*w),
{
    let mut r = "\n[workspace]\n".to_owned();
    r.append("  directory   : ");
    match &w.directory {
        Some(d) => {
            r.append(d.as_str());
        },
        None => {
            r.append("(none detected)");
        },
    }
    r.append("\n");
    r.append("  sempkg.toml : ");
    r.append(show_presence(w.manifest_present));
    r.append("\n");
    r.append("  sempkg.lock : ");
    r.append(show_presence(w.lock_present));
    r.append("\n");
    r.append("  bundles     : ");
    r.append(write_decimal(w.bundles as u64).as_str());
    r.append("\n");
    r
}

/// The lines of model files.
pub open spec fn file_lines(fs: Seq<FileView>) -> Seq<char>
    decreases fs.len(),
{
    if fs.len() == 0 {
        seq![]
    } else {
        file_lines(fs.drop_last()) + "    "@ + fs.last().name + " ("@ + size_text(fs.last().size)
            + ")\n"@
    }
}

pub open spec fn models_text(fs: Seq<FileView>) -> Seq<char> {
    if fs.len() == 0 {
        "  models      : (none downloaded)\n"@
    } else {
        "  models      :\n"@ + file_lines(fs)
    }
}

/// The section of the user's store.
pub open spec fn global_section(g: GlobalStatus) -> Seq<char> {
    "\n[global]\n"@ + "  directory   : "@ + g.directory@ + " ("@ + presence_text(g.exists) + ")\n"@
        + "  bundles     : "@ + pieces::decimal(g.bundles as nat) + "\n"@ + "  packages    : "@
        + pieces::decimal(g.local_packages as nat) + "\n"@ + models_text(file_views(g.models@))
}

fn show_models(models: &Vec<ModelFile>) -> (r: String)
    ensures
        r@ == models_text(file_views(models@)),
{
    let ghost all = file_views(models@);
    if models.len() == 0 {
        return "  models      : (none downloaded)\n".to_owned();
    }
    let mut r = "  models      :\n".to_owned();
    let ghost first = r@;
    let mut i: usize = 0;
    assert(r@ =~= first + file_lines(all.take(0)));
    while i < models.len()
        invariant
            i <= models@.len(),
            all == file_views(models@),
            r@ == first + file_lines(all.take(i as int)),
        decreases models.len() - i,
    {
        let ghost before = r@;
        r.append("    ");
        r.append(models[i].name.as_str());
        r.append(" (");
        r.append(human_size(models[i].size_bytes).as_str());
        r.append(")\n");
        proof {
            let now = all.take(i + 1);
            assert(now.drop_last() =~= all.take(i as int));
            assert(now.last() == models@[i as int]@);
            assert(r@ =~= first + file_lines(now));
        }
        i = i + 1;
    }
    assert(all.take(all.len() as int) =~= all);
    r
}

fn show_global(g: &GlobalStatus) -> (r: String)
    ensures
        r@ == global_section(*g),
{
    let mut r = "\n[global]\n".to_owned();
    r.append("  directory   : ");
    r.append(g.directory.as_str());
    r.append(" (");
    r.append(show_presence(g.exists));
    r.append(")\n");
    r.append("  bundles     : ");
    r.append(write_decimal(g.bundles as u64).as_str());
    r.append("\n");
    r.append("  packages    : ");
    r.append(write_decimal(g.local_packages as u64).as_str());
    r.append("\n");
    r.append(show_models(&g.models).as_str());
    r
}

pub open spec fn tool_text(path: Option<Seq<char>>) -> Seq<char> {
    match path {
        Some(p) => "yes ("@ + p + ")"@,
        None => "no — install with `npm install -g @colbymchenry/codegraph`"@,
    }
}

/// The section of the code graph's tool.
pub open spec fn codegraph_section(c: CodegraphStatus) -> Seq<char> {
    "\n[codegraph]\n"@ + "  on PATH     : "@ + tool_text(pieces::opt_text(c.path)) + "\n"@
        + "  version     : "@ + c.version@ + "\n"@
}

fn show_codegraph(c: &CodegraphStatus) -> (r: String)
    ensures
        r@ == codegraph_section(*c),
{
    let mut r = "\n[codegraph]\n".to_owned();
    r.append("  on PATH     : ");
    let ghost before = r@;
    match &c.path {
        Some(p) => {
            r.append("yes (");
            r.append(p.as_str());
            r.append(")");
        },
        None => {
            r.append("no — install with `npm install -g @colbymchenry/codegraph`");
        },
    }
    assert(r@ =~= before + tool_text(pieces::opt_text(c.path)));
    r.append("\n");
    r.append("  version     : ");
    r.append(c.version.as_str());
    r.append("\n");
    r
}

/// The report as people read it.
pub open spec fn report_text(d: DiagnosticReport) -> Seq<char> {
    build_section(d) + model_section("embedding"@, d.embedding) + model_section(
        "reranker"@,
        d.reranker,
    ) + model_section("query_expansion"@, d.query_expansion) + workspace_section(d.workspace)
        + global_section(d.global) + codegraph_section(d.codegraph)
}

/// The report as people read it.
pub fn show_report(d: &DiagnosticReport) -> (r: String)
    ensures
        r@ == report_text(*d),
{
    let mut r = show_build(d);
    r.append(show_model_section("embedding", &d.embedding).as_str());
    r.append(show_model_section("reranker", &d.reranker).as_str());
    r.append(show_model_section("query_expansion", &d.query_expansion).as_str());
    r.append(show_workspace(&d.workspace).as_str());
    r.append(show_global(&d.global).as_str());
    r.append(show_codegraph(&d.codegraph).as_str());
    r
}

/// A quotient is rounded to the nearest whole number: it is off by half a unit at most.
pub proof fn quotients_are_rounded_to_the_nearest(n: nat, unit: nat)
    requires
        unit > 0,
    ensures
        -(unit as int) <= 2 * (rounded(n, unit) * unit) - 2 * n <= unit,
        n % unit == 0 ==> rounded(n, unit) == n / unit,
        2 * (n % unit) == unit ==> rounded(n, unit) % 2 == 0,
{
    vstd::arithmetic::div_mod::lemma_fundamental_div_mod(n as int, unit as int);
    let q = n / unit;
    let r = n % unit;
    assert(unit * q == q * unit) by (nonlinear_arith);
    assert((q + 1) * unit == q * unit + unit) by (nonlinear_arith);
    vstd::arithmetic::div_mod::lemma_mod_bound(n as int, unit as int);
}

/// A size is shown in megabytes below one gigabyte and in gigabytes from there on, to the
/// nearest tenth.
pub proof fn sizes_are_shown_to_the_nearest_tenth(bytes: u64)
    requires
        bytes < 0x20_0000_0000_0000,
    ensures
        bytes < 0x4000_0000 ==> size_text(bytes) == tenths_text(
            rounded(10 * bytes as nat, 0x10_0000),
        ) + " MB"@,
        bytes >= 0x4000_0000 ==> size_text(bytes) == tenths_text(
            rounded(10 * bytes as nat, 0x4000_0000),
        ) + " GB"@,
{
    let n = bytes as nat;
    assert(spacing(n) == 1);
    assert(rounded(n, 1) == n);
}

/// Tenths have one digit behind the point.
pub proof fn tenths_have_one_digit(whole: nat, tenth: nat)
    requires
        tenth < 10,
    ensures
        tenths_text(10 * whole + tenth) == pieces::decimal(whole) + "."@ + seq![
            ('0' as u8 + tenth) as char,
        ],
{
    assert((10 * whole + tenth) / 10 == whole);
    assert((10 * whole + tenth) % 10 == tenth);
}

/// The features of a build are those that it has.
pub proof fn features_are_those_of_the_build(b: Build)
    ensures
        b.reranker ==> features(b)[0] == "reranker"@,
        b.embeddings && !b.reranker ==> features(b)[0] == "embeddings"@,
        b.embeddings && b.reranker ==> features(b)[1] == "embeddings"@,
        !b.embeddings && !b.reranker ==> features(b) == accel::backend_names(b.gpu),
        features(b).len() == accel::backend_names(b.gpu).len() + (if b.reranker {
            1int
        } else {
            0
        }) + (if b.embeddings {
            1int
        } else {
            0
        }),
{
}

} // verus!
