//! CPU and GPU settings that the local inference models share.

use vstd::prelude::*;

use crate::pieces;
use crate::pieces::join_texts;

verus! {

/// GPU offload policy for a local inference model.
#[derive(Debug, Clone, Copy, PartialEq, Eq, Structural)]
pub enum GpuMode {
    /// Use the GPU where the build has a backend that can offload, else the CPU.
    Auto,
    /// Ask for the GPU; without a backend the model runs on the CPU after a warning.
    On,
    /// CPU only.
    Off,
}

impl Default for GpuMode {
    fn default() -> (r: Self)
        ensures
            r == GpuMode::Auto,
    {
        GpuMode::Auto
    }
}

/// The name of a policy in settings and reports.
pub open spec fn gpu_name(m: GpuMode) -> Seq<char> {
    match m {
        GpuMode::Auto => "auto"@,
        GpuMode::On => "on"@,
        GpuMode::Off => "off"@,
    }
}

impl GpuMode {
    /// The policy's name in small letters.
    pub fn as_str(&self) -> (r: &'static str)
        ensures
            r@ == gpu_name(*self),
    {
        match self {
            GpuMode::Auto => "auto",
            GpuMode::On => "on",
            GpuMode::Off => "off",
        }
    }
}

/// The thread count for a machine: every logical core, one at least.
pub fn default_threads(cores: usize) -> (r: i32)
    ensures
        r == (if cores < 1 {
            1
        } else if cores > i32::MAX {
            i32::MAX as int
        } else {
            cores as int
        }),
{
    if cores < 1 {
        1
    } else if cores > i32::MAX as usize {
        i32::MAX
    } else {
        cores as i32
    }
}

/// The threads that a configured count asks for on a machine with so many cores: `0` means
/// all of them.
pub open spec fn threads(n_threads: u32, cores: usize) -> int {
    if n_threads > i32::MAX {
        i32::MAX as int
    } else if n_threads > 0 {
        n_threads as int
    } else if cores < 1 {
        1
    } else if cores > i32::MAX {
        i32::MAX as int
    } else {
        cores as int
    }
}

/// A configured thread count on a machine with so many cores: `0` means all of them.
pub fn resolve_threads(n_threads: u32, cores: usize) -> (r: i32)
    ensures
        r == threads(n_threads, cores),
{
    if n_threads == 0 {
        default_threads(cores)
    } else if n_threads > i32::MAX as u32 {
        i32::MAX
    } else {
        n_threads as i32
    }
}

/// The GPU backends that a build has.
#[derive(Debug, Clone, Copy)]
pub struct GpuBackends {
    pub cuda: bool,
    pub vulkan: bool,
    pub rocm: bool,
    pub metal: bool,
}

/// The names of the backends, always in one order.
pub open spec fn backend_names(b: GpuBackends) -> Seq<Seq<char>> {
    (if b.cuda {
        seq!["cuda"@]
    } else {
        seq![]
    }) + (if b.vulkan {
        seq!["vulkan"@]
    } else {
        seq![]
    }) + (if b.rocm {
        seq!["rocm"@]
    } else {
        seq![]
    }) + (if b.metal {
        seq!["metal"@]
    } else {
        seq![]
    })
}

/// No backend is named twice, and every name is short.
pub proof fn lemma_backend_names(b: GpuBackends)
    ensures
        backend_names(b).no_duplicates(),
        forall|i: int| 0 <= i < backend_names(b).len() ==> (#[trigger] backend_names(b)[i]).len() <= 6,
{
    reveal_strlit("cuda");
    reveal_strlit("vulkan");
    reveal_strlit("rocm");
    reveal_strlit("metal");
    assert("cuda"@.len() == 4 && "vulkan"@.len() == 6 && "rocm"@.len() == 4 && "metal"@.len() == 5);
    assert("cuda"@[0] == 'c' && "rocm"@[0] == 'r');
    let one = if b.cuda {
        seq!["cuda"@]
    } else {
        seq![]
    };
    let two = one + if b.vulkan {
        seq!["vulkan"@]
    } else {
        seq![]
    };
    let three = two + if b.rocm {
        seq!["rocm"@]
    } else {
        seq![]
    };
    assert(forall|i: int| 0 <= i < two.len() ==> #[trigger] two[i] == "cuda"@ || two[i] == "vulkan"@);
    assert(two.no_duplicates());
    assert(forall|i: int|
        0 <= i < three.len() ==> #[trigger] three[i] == "cuda"@ || three[i] == "vulkan"@ || three[i]
            == "rocm"@);
    assert(three.no_duplicates());
}

/// What a report says of the backends. Without one nothing can be offloaded.
pub open spec fn gpu_text(b: GpuBackends) -> Seq<char> {
    if backend_names(b).len() == 0 {
        "CPU-only — no GPU backend compiled in (rebuild with e.g. `--features embeddings,cuda` or `…,vulkan`)"@
    } else {
        "compiled with "@ + pieces::join(backend_names(b), ", "@)
    }
}

/// What a report says of the backends.
pub fn gpu_build_status(b: GpuBackends) -> (r: String)
    ensures
        r@ == gpu_text(b),
{
    let mut names: Vec<String> = Vec::new();
    if b.cuda {
        names.push("cuda".to_owned());
    }
    if b.vulkan {
        names.push("vulkan".to_owned());
    }
    if b.rocm {
        names.push("rocm".to_owned());
    }
    if b.metal {
        names.push("metal".to_owned());
    }
    assert(pieces::texts(names@) =~= backend_names(b));
    if names.len() == 0 {
        "CPU-only — no GPU backend compiled in (rebuild with e.g. `--features embeddings,cuda` or `…,vulkan`)".to_owned()
    } else {
        let mut r = "compiled with ".to_owned();
        r.append(join_texts(&names, ", ").as_str());
        r
    }
}

/// A layer count that stands for the whole model.
pub const ALL_LAYERS: u32 = 1_000_000;

/// How many layers of a model go to the GPU: none where the policy is off, the
/// configured number where there is one, else the whole model where the backend can
/// offload.
pub fn resolve_gpu_layers(mode: GpuMode, gpu_layers: u32, can_offload: bool) -> (r: u32)
    ensures
        r == (if mode == GpuMode::Off {
            0
        } else if gpu_layers > 0 {
            gpu_layers
        } else if can_offload {
            ALL_LAYERS
        } else {
            0
        }),
{
    if mode == GpuMode::Off {
        return 0;
    }
    if gpu_layers > 0 {
        return gpu_layers;
    }
    if can_offload {
        ALL_LAYERS
    } else {
        0
    }
}

/// Whether to warn that the GPU was asked for and cannot be had.
pub fn gpu_warning_due(mode: GpuMode, gpu_layers: u32, can_offload: bool) -> (r: bool)
    ensures
        r == (mode == GpuMode::On && gpu_layers == 0 && !can_offload),
{
    mode == GpuMode::On && gpu_layers == 0 && !can_offload
}

/// What is said where a section asks for the GPU and nothing can be offloaded.
pub fn gpu_warning(section: &str) -> (r: String)
    ensures
        r@ == "sempkg: warning — ["@ + section@
            + "] gpu = \"on\" but this binary was built without a GPU backend; running on CPU. Rebuild with a GPU backend, e.g. `cargo build --release --features embeddings,cuda` (or `vulkan`)."@,
{
    let mut r = "sempkg: warning — [".to_owned();
    r.append(section);
    r.append(
        "] gpu = \"on\" but this binary was built without a GPU backend; running on CPU. Rebuild with a GPU backend, e.g. `cargo build --release --features embeddings,cuda` (or `vulkan`).",
    );
    r
}

/// The threads that are asked for are used, and all cores where none are asked for.
pub proof fn threads_asked_for_are_used(n_threads: u32, cores: usize)
    ensures
        0 < n_threads <= i32::MAX ==> threads(n_threads, cores) == n_threads,
        n_threads == 0 && 0 < cores <= i32::MAX ==> threads(n_threads, cores) == cores,
        n_threads == 0 && cores == 0 ==> threads(n_threads, cores) == 1,
        0 < threads(n_threads, cores) <= i32::MAX,
{
}

/// A build names the backends that it has, and no other.
pub proof fn backends_are_named(b: GpuBackends)
    ensures
        b.cuda <==> backend_names(b).contains("cuda"@),
        b.vulkan <==> backend_names(b).contains("vulkan"@),
        b.rocm <==> backend_names(b).contains("rocm"@),
        b.metal <==> backend_names(b).contains("metal"@),
{
    reveal_strlit("cuda");
    reveal_strlit("vulkan");
    reveal_strlit("rocm");
    reveal_strlit("metal");
    assert("cuda"@[0] == 'c' && "rocm"@[0] == 'r');
    assert("vulkan"@.len() == 6 && "metal"@.len() == 5);
    let ns = backend_names(b);
    let c: int = if b.cuda {
        1
    } else {
        0
    };
    let v: int = if b.vulkan {
        1
    } else {
        0
    };
    let r: int = if b.rocm {
        1
    } else {
        0
    };
    if b.cuda {
        assert(ns[0] == "cuda"@);
    }
    if b.vulkan {
        assert(ns[c] == "vulkan"@);
    }
    if b.rocm {
        assert(ns[c + v] == "rocm"@);
    }
    if b.metal {
        assert(ns[c + v + r] == "metal"@);
    }
}

} // verus!
