//! What is said of a capability's settings: whether it is on, its model, and what to do
//! where the model is missing.

use vstd::prelude::*;

use crate::accel;
use crate::accel::{gpu_build_status, resolve_threads, GpuBackends};
use crate::embedding;
use crate::embedding::{EmbeddingConfig, EmbeddingModel};
use crate::pieces;
use crate::pieces::{write_decimal, write_integer};
use crate::query_expansion;
use crate::query_expansion::QueryExpansionConfig;
use crate::reranker;
use crate::reranker::RerankerConfig;
use crate::status;
use crate::status::show_flag;

verus! {

/// How a number of threads came about.
pub open spec fn threads_origin(n_threads: u32) -> Seq<char> {
    if n_threads == 0 {
        "all cores"@
    } else {
        "configured"@
    }
}

fn show_origin(n_threads: u32) -> (r: &'static str)
    ensures
        r@ == threads_origin(n_threads),
{
    if n_threads == 0 {
        "all cores"
    } else {
        "configured"
    }
}

fn show_override(layers: u32) -> (r: String)
    ensures
        r@ == status::override_text(layers),
{
    let mut r = String::new();
    if layers > 0 {
        r.append(" (manual override: ");
        r.append(write_decimal(layers as u64).as_str());
        r.append(" layers)");
        assert(r@ =~= status::override_text(layers));
    } else {
        assert(r@ =~= seq![]);
    }
    r
}

/// Whether a model's file is there.
pub open spec fn file_state(present: bool) -> Seq<char> {
    if present {
        "✓ present"@
    } else {
        "✗ missing"@
    }
}

fn show_file_state(present: bool) -> (r: &'static str)
    ensures
        r@ == file_state(present),
{
    if present {
        "✓ present"
    } else {
        "✗ missing"
    }
}

/// One of two texts.
pub open spec fn either(which: bool, a: Seq<char>, b: Seq<char>) -> Seq<char> {
    if which {
        a
    } else {
        b
    }
}

fn show_either<'a>(which: bool, a: &'a str, b: &'a str) -> (r: &'a str)
    ensures
        r@ == either(which, a@, b@),
{
    if which {
        a
    } else {
        b
    }
}

/// The selected model, and its dimension, or what is wrong with the settings.
pub open spec fn selected_text(id: Seq<char>) -> Seq<char> {
    match embedding::named_model(id) {
        Some(m) => embedding::model_title(m) + " ("@ + embedding::model_id(m) + ")\n  dimension  : "@
            + pieces::decimal(embedding::dimension(m) as nat),
        None => "<invalid> — "@ + embedding::unknown_model(id),
    }
}

fn show_selected(c: &EmbeddingConfig) -> (r: String)
    ensures
        r@ == selected_text(c.model_id@),
{
    match c.model() {
        Ok(m) => {
            let mut r = m.display_name().to_owned();
            r.append(" (");
            r.append(m.id());
            r.append(")\n  dimension  : ");
            r.append(write_decimal(m.dim() as u64).as_str());
            r
        },
        Err(e) => {
            let mut r = "<invalid> — ".to_owned();
            r.append(e.as_str());
            r
        },
    }
}

/// What marks the selected model in a list.
pub open spec fn marker(selected: Option<EmbeddingModel>, m: EmbeddingModel) -> Seq<char> {
    if selected == Some(m) {
        "→"@
    } else {
        " "@
    }
}

fn show_marker(c: &EmbeddingConfig, m: EmbeddingModel) -> (r: &'static str)
    ensures
        r@ == marker(embedding::named_model(c.model_id@), m),
{
    match c.model() {
        Ok(s) => if s == m {
            "→"
        } else {
            " "
        },
        Err(_) => " ",
    }
}

/// What is said of embedding: `present` is whether the model is there, `compiled` whether
/// the program can embed in its process.
pub open spec fn embedding_text(c: EmbeddingConfig, home: Option<Seq<char>>, cores: usize, gpu: GpuBackends, present: bool, compiled: bool) -> Seq<char> {
    "Embedding configuration:\n  enabled    : "@
        + status::flag_text(c.enabled)
        + "\n  model      : "@
        + selected_text(c.model_id@)
        + "\n  gguf path  : "@
        + embedding::embedding_path(c, home)
        + "\n  n_ctx      : "@
        + pieces::decimal(c.n_ctx as nat)
        + "\n  cpu threads: "@
        + pieces::integer_text(accel::threads(c.n_threads, cores))
        + " ("@
        + threads_origin(c.n_threads)
        + ")\n  gpu        : "@
        + accel::gpu_name(c.gpu)
        + status::override_text(c.gpu_layers)
        + "\n  gpu build  : "@
        + accel::gpu_text(gpu)
        + "\n\nAvailable models (set `model_id` under [embedding] in sempkg.toml):\n  "@
        + marker(embedding::named_model(c.model_id@), EmbeddingModel::Gemma300M)
        + " embeddinggemma-300m  (dim 768)\n  "@
        + marker(embedding::named_model(c.model_id@), EmbeddingModel::Qwen3Embedding0_6B)
        + " qwen3-embedding-0.6b  (dim 1024)\n\n  model file : "@
        + file_state(present)
        + "\n\n"@
        + either(present, "Embedding is ready. Run `sempkg embed` to build vector indexes.\n"@, "Run `sempkg embedding pull` to download the model.\n"@)
        + either(compiled, ""@, "\nNOTE: This binary was compiled WITHOUT the `embeddings` feature. Vector search is disabled at runtime even if the model is present. Rebuild with `cargo build --features embeddings` to enable it.\n"@)
}

/// What is said of embedding: `present` is whether the model is there, `compiled` whether
/// the program can embed in its process.
pub fn embedding_settings(c: &EmbeddingConfig, home: &Option<String>, cores: usize, gpu: GpuBackends, present: bool, compiled: bool) -> (r: String)
    ensures
        r@ == embedding_text(*c, pieces::opt_text(*home), cores, gpu, present, compiled),
{
    let mut r = "Embedding configuration:\n  enabled    : ".to_owned();
    r.append(show_flag(c.enabled));
    r.append("\n  model      : ");
    r.append(show_selected(c).as_str());
    r.append("\n  gguf path  : ");
    r.append(c.model_path_in(home).as_str());
    r.append("\n  n_ctx      : ");
    r.append(write_decimal(c.n_ctx as u64).as_str());
    r.append("\n  cpu threads: ");
    r.append(write_integer(resolve_threads(c.n_threads, cores) as i64).as_str());
    r.append(" (");
    r.append(show_origin(c.n_threads));
    r.append(")\n  gpu        : ");
    r.append(c.gpu.as_str());
    r.append(show_override(c.gpu_layers).as_str());
    r.append("\n  gpu build  : ");
    r.append(gpu_build_status(gpu).as_str());
    r.append("\n\nAvailable models (set `model_id` under [embedding] in sempkg.toml):\n  ");
    r.append(show_marker(c, EmbeddingModel::Gemma300M));
    r.append(" embeddinggemma-300m  (dim 768)\n  ");
    r.append(show_marker(c, EmbeddingModel::Qwen3Embedding0_6B));
    r.append(" qwen3-embedding-0.6b  (dim 1024)\n\n  model file : ");
    r.append(show_file_state(present));
    r.append("\n\n");
    r.append(show_either(present, "Embedding is ready. Run `sempkg embed` to build vector indexes.\n", "Run `sempkg embedding pull` to download the model.\n"));
    r.append(show_either(compiled, "", "\nNOTE: This binary was compiled WITHOUT the `embeddings` feature. Vector search is disabled at runtime even if the model is present. Rebuild with `cargo build --features embeddings` to enable it.\n"));
    r
}

/// What is said of reranking: `present` is whether the model is there, `compiled` whether
/// the program can rerank in its process.
pub open spec fn reranker_text(c: RerankerConfig, home: Option<Seq<char>>, cores: usize, gpu: GpuBackends, present: bool, compiled: bool) -> Seq<char> {
    "Reranker configuration:\n  enabled    : "@
        + status::flag_text(c.enabled)
        + "\n  model      : "@
        + reranker::reranker_path(c, home)
        + "\n  top_k      : "@
        + pieces::decimal(c.top_k as nat)
        + "\n  output_n   : "@
        + pieces::decimal(c.output_n as nat)
        + "\n  cpu threads: "@
        + pieces::integer_text(accel::threads(c.n_threads, cores))
        + " ("@
        + threads_origin(c.n_threads)
        + ")\n  gpu        : "@
        + accel::gpu_name(c.gpu)
        + status::override_text(c.gpu_layers)
        + "\n  gpu build  : "@
        + accel::gpu_text(gpu)
        + "\n\n  model file : "@
        + file_state(present)
        + "\n  tokenizer  : embedded in GGUF (no separate file needed)\n\n"@
        + either(present, "Reranker is ready. Queries will be reranked when sempkg mcp is running.\n"@, "Run `sempkg reranker pull` to download the model.\n"@)
        + either(compiled, ""@, "\nNOTE: This binary was compiled WITHOUT the `reranker` feature. Reranking is disabled at runtime even if the model is present. Rebuild with `cargo build --features reranker` to enable it.\n"@)
}

/// What is said of reranking: `present` is whether the model is there, `compiled` whether
/// the program can rerank in its process.
pub fn reranker_settings(c: &RerankerConfig, home: &Option<String>, cores: usize, gpu: GpuBackends, present: bool, compiled: bool) -> (r: String)
    ensures
        r@ == reranker_text(*c, pieces::opt_text(*home), cores, gpu, present, compiled),
{
    let mut r = "Reranker configuration:\n  enabled    : ".to_owned();
    r.append(show_flag(c.enabled));
    r.append("\n  model      : ");
    r.append(c.model_path_in(home).as_str());
    r.append("\n  top_k      : ");
    r.append(write_decimal(c.top_k as u64).as_str());
    r.append("\n  output_n   : ");
    r.append(write_decimal(c.output_n as u64).as_str());
    r.append("\n  cpu threads: ");
    r.append(write_integer(resolve_threads(c.n_threads, cores) as i64).as_str());
    r.append(" (");
    r.append(show_origin(c.n_threads));
    r.append(")\n  gpu        : ");
    r.append(c.gpu.as_str());
    r.append(show_override(c.gpu_layers).as_str());
    r.append("\n  gpu build  : ");
    r.append(gpu_build_status(gpu).as_str());
    r.append("\n\n  model file : ");
    r.append(show_file_state(present));
    r.append("\n  tokenizer  : embedded in GGUF (no separate file needed)\n\n");
    r.append(show_either(present, "Reranker is ready. Queries will be reranked when sempkg mcp is running.\n", "Run `sempkg reranker pull` to download the model.\n"));
    r.append(show_either(compiled, "", "\nNOTE: This binary was compiled WITHOUT the `reranker` feature. Reranking is disabled at runtime even if the model is present. Rebuild with `cargo build --features reranker` to enable it.\n"));
    r
}

/// What is said of query expansion: `present` is whether the model is there, `compiled`
/// whether the program can expand in its process. The settings that are fractions come as
/// they are written.
pub open spec fn expansion_text(c: QueryExpansionConfig, home: Option<Seq<char>>, cores: usize, gpu: GpuBackends, present: bool, compiled: bool, shown: (Seq<char>, Seq<char>, Seq<char>)) -> Seq<char> {
    "Query-expansion configuration:\n  enabled      : "@
        + status::flag_text(c.enabled)
        + "\n  model        : "@
        + query_expansion::expansion_path(c, home)
        + "\n  max_variants : "@
        + pieces::decimal(c.max_variants as nat)
        + "\n  max_tokens   : "@
        + pieces::integer_text(c.max_tokens as int)
        + "\n  n_ctx        : "@
        + pieces::decimal(c.n_ctx as nat)
        + "\n  cpu threads  : "@
        + pieces::integer_text(accel::threads(c.n_threads, cores))
        + " ("@
        + threads_origin(c.n_threads)
        + ")\n  gpu          : "@
        + accel::gpu_name(c.gpu)
        + status::override_text(c.gpu_layers)
        + "\n  gpu build    : "@
        + accel::gpu_text(gpu)
        + "\n  temperature  : "@
        + shown.0
        + "\n  additive_only: "@
        + status::flag_text(c.additive_only)
        + "\n  max_expansion_pool_fraction : "@
        + shown.1
        + "\n  topical_anchoring : "@
        + status::flag_text(c.topical_anchoring)
        + "\n  anchor_floor : "@
        + shown.2
        + "\n\n  model file   : "@
        + file_state(present)
        + "\n"@
        + either(present, ""@, "\nRun `sempkg query-expansion pull` to download the model.\n"@)
        + either(compiled, ""@, "\nNOTE: This binary was compiled WITHOUT the `embeddings` feature. Query expansion is disabled at runtime. Rebuild with `cargo build --features embeddings` to enable it.\n"@)
}

/// What is said of query expansion: `present` is whether the model is there, `compiled`
/// whether the program can expand in its process. The settings that are fractions come as
/// they are written.
pub fn query_expansion_settings(c: &QueryExpansionConfig, home: &Option<String>, cores: usize, gpu: GpuBackends, present: bool, compiled: bool, temperature: &str, pool_fraction: &str, anchor_floor: &str) -> (r: String)
    ensures
        r@ == expansion_text(*c, pieces::opt_text(*home), cores, gpu, present, compiled, (temperature@, pool_fraction@, anchor_floor@)),
{
    let mut r = "Query-expansion configuration:\n  enabled      : ".to_owned();
    r.append(show_flag(c.enabled));
    r.append("\n  model        : ");
    r.append(c.model_path_in(home).as_str());
    r.append("\n  max_variants : ");
    r.append(write_decimal(c.max_variants as u64).as_str());
    r.append("\n  max_tokens   : ");
    r.append(write_integer(c.max_tokens as i64).as_str());
    r.append("\n  n_ctx        : ");
    r.append(write_decimal(c.n_ctx as u64).as_str());
    r.append("\n  cpu threads  : ");
    r.append(write_integer(resolve_threads(c.n_threads, cores) as i64).as_str());
    r.append(" (");
    r.append(show_origin(c.n_threads));
    r.append(")\n  gpu          : ");
    r.append(c.gpu.as_str());
    r.append(show_override(c.gpu_layers).as_str());
    r.append("\n  gpu build    : ");
    r.append(gpu_build_status(gpu).as_str());
    r.append("\n  temperature  : ");
    r.append(temperature);
    r.append("\n  additive_only: ");
    r.append(show_flag(c.additive_only));
    r.append("\n  max_expansion_pool_fraction : ");
    r.append(pool_fraction);
    r.append("\n  topical_anchoring : ");
    r.append(show_flag(c.topical_anchoring));
    r.append("\n  anchor_floor : ");
    r.append(anchor_floor);
    r.append("\n\n  model file   : ");
    r.append(show_file_state(present));
    r.append("\n");
    r.append(show_either(present, "", "\nRun `sempkg query-expansion pull` to download the model.\n"));
    r.append(show_either(compiled, "", "\nNOTE: This binary was compiled WITHOUT the `embeddings` feature. Query expansion is disabled at runtime. Rebuild with `cargo build --features embeddings` to enable it.\n"));
    r
}

} // verus!
