use sempkg::accel::{
    default_threads, gpu_build_status, gpu_warning_due, resolve_gpu_layers, resolve_threads,
    GpuBackends, GpuMode, ALL_LAYERS,
};
use sempkg::settings::{embedding_settings, query_expansion_settings, reranker_settings};
use sempkg::status::{
    build_features, codegraph_status, gather, global_status, human_size, sections, show_report,
    sort_models, workspace_status, Build, DiagnosticReport, ModelFile, ModelSizes,
};

fn build(reranker: bool, embeddings: bool, gpu: GpuBackends) -> Build {
    Build {
        version: "0.1.0".to_string(),
        commit: None,
        os: "linux".to_string(),
        arch: "x86_64".to_string(),
        reranker,
        embeddings,
        gpu,
        cores: 4,
    }
}

#[test]
fn features_match_compiled_cfg() {
    const KNOWN: [&str; 6] = ["reranker", "embeddings", "cuda", "vulkan", "rocm", "metal"];

    for bits in 0..64u32 {
        let on = |n: u32| bits & (1 << n) != 0;
        let gpu = GpuBackends { cuda: on(2), vulkan: on(3), rocm: on(4), metal: on(5) };
        let features = build_features(&build(on(0), on(1), gpu));

        assert_eq!(
            features.iter().any(|f| f == "reranker"),
            on(0),
            "reported features must match the cargo features this binary was built with"
        );
        assert_eq!(features.iter().any(|f| f == "embeddings"), on(1));

        for f in &features {
            assert!(KNOWN.contains(&f.as_str()), "unknown feature reported: {f}");
        }
        assert_eq!(
            features.len(),
            features.iter().collect::<std::collections::HashSet<_>>().len(),
            "features must not repeat: {features:?}"
        );

        for (name, enabled) in [
            ("cuda", on(2)),
            ("vulkan", on(3)),
            ("rocm", on(4)),
            ("metal", on(5)),
        ] {
            assert_eq!(
                features.iter().any(|f| f == name),
                enabled,
                "`{name}` reported on a build compiled without it"
            );
        }
    }
}

#[test]
fn human_size_switches_unit_at_a_gigabyte() {
    assert_eq!(human_size(512 * 1024 * 1024), "512.0 MB");
    assert_eq!(human_size(2 * 1024 * 1024 * 1024), "2.0 GB");
}

fn no_gpu() -> GpuBackends {
    GpuBackends { cuda: false, vulkan: false, rocm: false, metal: false }
}

fn report(dir: Option<&str>) -> DiagnosticReport {
    let home = Some("/home/u".to_string());
    gather(
        &build(false, false, no_gpu()),
        &sections(None),
        &home,
        &ModelSizes { embedding: None, reranker: Some(3 * 1024 * 1024), query_expansion: None },
        workspace_status(dir, false, false, 0),
        global_status(&home, false, 0, &vec![], 0),
        codegraph_status(&None, "unknown"),
    )
}

#[test]
fn report_serializes_expected_keys() {
    let r = report(None);
    assert_eq!(r.version, "0.1.0");
    assert_eq!(r.commit, "unknown");
    assert_eq!(r.os, "linux");
    assert_eq!(r.arch, "x86_64");
    assert!(r.features.is_empty());
    assert!(r.gpu_build.starts_with("CPU-only"));
    assert_eq!(r.cpu_threads, 4);
    assert!(r.embedding.model_path.starts_with("/home/u/.sempkg/models/"));
    assert!(r.reranker.model_present);
    assert_eq!(r.reranker.model_size_bytes, Some(3 * 1024 * 1024));
    assert!(!r.query_expansion.model_present);
    assert_eq!(r.workspace.directory, None);
    assert_eq!(r.global.directory, "/home/u/.sempkg");
    assert!(!r.codegraph.on_path);
    let shown = show_report(&r);
    assert!(shown.contains("[embedding]"));
    assert!(shown.contains("[reranker]"));
}

#[test]
fn missing_workspace_reports_absent_fields_without_panicking() {
    let missing = "/tmp/x/no-such-workspace";
    let report = report(Some(missing));

    assert_eq!(report.workspace.directory, Some(missing.to_string()));
    assert!(!report.workspace.manifest_present);
    assert!(!report.workspace.lock_present);
    assert_eq!(report.workspace.bundles, 0);
    assert!(!report.embedding.model_path.is_empty());
}

#[test]
fn sizes_are_rounded_to_a_tenth() {
    for bytes in [
        0u64,
        1,
        52_428,
        52_429,
        157_286,
        1_048_576,
        1_572_864,
        1_073_741_823,
        1_073_741_824,
        1_181_116_006,
        5_000_000_000,
        u64::MAX,
    ] {
        let b = bytes as f64;
        let mb = 1024.0 * 1024.0;
        let gb = mb * 1024.0;
        let want = if b >= gb {
            format!("{:.1} GB", b / gb)
        } else {
            format!("{:.1} MB", b / mb)
        };
        assert_eq!(human_size(bytes), want, "{bytes}");
    }
}

#[test]
fn models_are_listed_by_name() {
    let file = |name: &str, size_bytes: u64| ModelFile { name: name.to_string(), size_bytes };
    let sorted = sort_models(&vec![file("b", 2), file("a", 1), file("c", 3)]);
    let names: Vec<&str> = sorted.iter().map(|f| f.name.as_str()).collect();
    assert_eq!(names, vec!["a", "b", "c"]);
}

#[test]
fn threads_default_to_the_cores() {
    assert_eq!(default_threads(0), 1);
    assert_eq!(default_threads(8), 8);
    assert_eq!(resolve_threads(0, 8), 8);
    assert_eq!(resolve_threads(3, 8), 3);
    assert_eq!(resolve_threads(u32::MAX, 8), i32::MAX);
}

#[test]
fn layers_are_offloaded_where_that_works() {
    assert_eq!(resolve_gpu_layers(GpuMode::Off, 7, true), 0);
    assert_eq!(resolve_gpu_layers(GpuMode::Auto, 7, false), 7);
    assert_eq!(resolve_gpu_layers(GpuMode::Auto, 0, true), ALL_LAYERS);
    assert_eq!(resolve_gpu_layers(GpuMode::Auto, 0, false), 0);
    assert_eq!(resolve_gpu_layers(GpuMode::On, 0, false), 0);
    assert!(gpu_warning_due(GpuMode::On, 0, false));
    assert!(!gpu_warning_due(GpuMode::Auto, 0, false));
    assert!(!gpu_warning_due(GpuMode::On, 0, true));
    assert_eq!(GpuMode::On.as_str(), "on");
}

#[test]
fn backends_are_named() {
    let two = GpuBackends { cuda: true, vulkan: false, rocm: false, metal: true };
    assert_eq!(gpu_build_status(two), "compiled with cuda, metal");
}

#[test]
fn settings_tell_what_is_missing() {
    let home = Some("/home/u".to_string());
    let s = sections(None);
    let text = reranker_settings(&s.reranker, &home, 4, no_gpu(), false, false);
    assert!(text.contains("WITHOUT the `reranker` feature"), "{text}");
    let text = embedding_settings(&s.embedding, &home, 4, no_gpu(), true, true);
    assert!(text.contains("/home/u/.sempkg/models/"), "{text}");
    let text = query_expansion_settings(
        &s.query_expansion,
        &home,
        4,
        no_gpu(),
        false,
        true,
        "0.7",
        "0.34",
        "0.5",
    );
    assert!(text.contains("0.7"), "{text}");
}
