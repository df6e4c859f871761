use sempkg::embedding::EmbeddingConfig;
use sempkg::manifest::{
    check_init, init_manifest, save_manifest, DependencyEntry, LockEntry, LockFile, RegistryEntry,
    WorkspaceManifest, WorkspaceSection, MANIFEST_HEADER,
};
use sempkg::query_expansion::QueryExpansionConfig;
use sempkg::reranker::RerankerConfig;
use sempkg::strmap::StringMap;

fn dep(version: &str) -> DependencyEntry {
    DependencyEntry {
        version: version.to_string(),
        registry: None,
        url: None,
        git: None,
        git_ref: None,
        subdir: None,
        full: false,
        local: None,
        include_source: false,
        source_glob: None,
        source_dirs: vec![],
        docs_dirs: vec![],
        exclude_dirs: vec![],
        description: None,
    }
}

#[test]
fn find_dependency_searches_groups() {
    let mut manifest = WorkspaceManifest::default();
    let mut grouped = dep("3.0.0");
    grouped.description = Some("test-only helper".to_string());
    let mut dev = StringMap::new();
    dev.insert("pytest".to_string(), grouped);
    manifest.dependency_groups.insert("dev".to_string(), dev);

    assert_eq!(
        manifest
            .find_dependency("pytest")
            .and_then(|d| d.description.as_deref()),
        Some("test-only helper")
    );
    assert!(manifest.find_dependency("missing").is_none());
}

/// The manifest that a text holds.
fn read(saved: &str) -> toml::Table {
    saved.parse::<toml::Table>().expect("load manifest")
}

fn demo() -> WorkspaceManifest {
    let mut manifest = WorkspaceManifest::default();
    manifest.dependencies.insert("demo".to_string(), dep("1.0.0"));
    manifest
}

#[test]
fn dependency_description_round_trips() {
    let mut manifest = WorkspaceManifest::default();
    let mut described = dep("1.0.0");
    described.description = Some("HTTP client with retry support".to_string());
    manifest.dependencies.insert("reqwest".to_string(), described);
    manifest.dependencies.insert("plain".to_string(), dep("2.0.0"));

    let saved = save_manifest(None, &manifest).expect("save manifest");
    assert!(saved.contains("description = \"HTTP client with retry support\""));
    assert_eq!(saved.matches("description =").count(), 1);

    let loaded = read(&saved);
    assert_eq!(
        loaded["dependencies"]["reqwest"]["description"].as_str(),
        Some("HTTP client with retry support")
    );
    assert!(loaded["dependencies"]["plain"].get("description").is_none());
}

#[test]
fn save_manifest_preserves_reranker_table() {
    let mut manifest = demo();
    manifest.reranker = Some(RerankerConfig {
        enabled: true,
        model: Some("~/.sempkg/models/custom.gguf".to_string()),
        top_k: 42,
        output_n: 7,
        ..Default::default()
    });

    let saved = save_manifest(None, &manifest).expect("save manifest");
    assert!(saved.contains("[reranker]"));
    assert!(saved.contains("top_k = 42"));
    assert!(saved.contains("output_n = 7"));

    let loaded = read(&saved);
    let reranker = loaded.get("reranker").expect("reranker section present");
    assert_eq!(reranker["enabled"].as_bool(), Some(true));
    assert_eq!(
        reranker["model"].as_str(),
        Some("~/.sempkg/models/custom.gguf")
    );
    assert_eq!(reranker["top_k"].as_integer(), Some(42));
    assert_eq!(reranker["output_n"].as_integer(), Some(7));
}

#[test]
fn save_manifest_preserves_embedding_table() {
    let mut manifest = demo();
    manifest.embedding = Some(EmbeddingConfig {
        enabled: true,
        model_id: "qwen3-embedding-0.6b".to_string(),
        model: Some("~/.sempkg/models/custom-embedding.gguf".to_string()),
        n_ctx: 1024,
        gpu_layers: 2,
        ..Default::default()
    });

    let saved = save_manifest(None, &manifest).expect("save manifest");
    assert!(saved.contains("[embedding]"));
    assert!(saved.contains("n_ctx = 1024"));
    assert!(saved.contains("gpu_layers = 2"));

    let loaded = read(&saved);
    let embedding = loaded.get("embedding").expect("embedding section present");
    assert_eq!(embedding["enabled"].as_bool(), Some(true));
    assert_eq!(
        embedding["model"].as_str(),
        Some("~/.sempkg/models/custom-embedding.gguf")
    );
    assert_eq!(embedding["n_ctx"].as_integer(), Some(1024));
    assert_eq!(embedding["gpu_layers"].as_integer(), Some(2));
}

#[test]
fn save_manifest_preserves_query_expansion_table() {
    let mut manifest = demo();
    manifest.query_expansion = Some(QueryExpansionConfig {
        enabled: true,
        model: Some("~/.sempkg/models/custom-expansion.gguf".to_string()),
        max_variants: 8,
        max_tokens: 512,
        n_ctx: 4096,
        gpu_layers: 4,
        ..Default::default()
    });

    let saved = save_manifest(None, &manifest).expect("save manifest");
    assert!(saved.contains("[query_expansion]"));
    assert!(saved.contains("max_variants = 8"));
    assert!(saved.contains("max_tokens = 512"));
    assert!(saved.contains("n_ctx = 4096"));
    assert!(saved.contains("gpu_layers = 4"));

    let loaded = read(&saved);
    let expansion = loaded
        .get("query_expansion")
        .expect("query_expansion section present");
    assert_eq!(expansion["enabled"].as_bool(), Some(true));
    assert_eq!(
        expansion["model"].as_str(),
        Some("~/.sempkg/models/custom-expansion.gguf")
    );
    assert_eq!(expansion["max_variants"].as_integer(), Some(8));
    assert_eq!(expansion["max_tokens"].as_integer(), Some(512));
    assert_eq!(expansion["n_ctx"].as_integer(), Some(4096));
    assert_eq!(expansion["gpu_layers"].as_integer(), Some(4));
}

#[test]
fn save_manifest_preserves_all_config_tables() {
    let mut manifest = demo();
    manifest.embedding = Some(EmbeddingConfig {
        enabled: true,
        model_id: "embeddinggemma-300m".to_string(),
        model: None,
        n_ctx: 2048,
        gpu_layers: 0,
        ..Default::default()
    });
    manifest.query_expansion = Some(QueryExpansionConfig {
        enabled: true,
        model: None,
        max_variants: 4,
        max_tokens: 256,
        n_ctx: 2048,
        gpu_layers: 0,
        ..Default::default()
    });
    manifest.reranker = Some(RerankerConfig {
        enabled: true,
        model: None,
        top_k: 20,
        output_n: 5,
        ..Default::default()
    });

    let saved = save_manifest(None, &manifest).expect("save manifest");
    assert!(saved.contains("[embedding]"));
    assert!(saved.contains("[query_expansion]"));
    assert!(saved.contains("[reranker]"));

    let loaded = read(&saved);
    assert!(loaded.get("embedding").is_some());
    assert!(loaded.get("query_expansion").is_some());
    assert!(loaded.get("reranker").is_some());
}

#[test]
fn what_the_manifest_does_not_manage_is_kept() {
    let before = "[custom]\nkey = \"v\"\n\n[reranker]\ntop_k = 3\nmine = true\n";
    let mut manifest = demo();
    manifest.reranker = Some(RerankerConfig {
        top_k: 9,
        ..Default::default()
    });
    let saved = save_manifest(Some(before), &manifest).unwrap();
    let loaded = read(&saved);
    assert_eq!(loaded["custom"]["key"].as_str(), Some("v"));
    assert_eq!(loaded["reranker"]["mine"].as_bool(), Some(true));
    assert_eq!(loaded["reranker"]["top_k"].as_integer(), Some(9));
    assert_eq!(loaded["dependencies"]["demo"]["version"].as_str(), Some("1.0.0"));
}

#[test]
fn comments_stay_where_they_are() {
    let before = "# mine\n[custom]\n# a key\nkey = 0x1F # hex\n\n# ranking\n[reranker] # on top\n\
                  # how many\ntop_k = 3 # few\nmine = [ 1,2 ]\n# which\nmodel = \"m\"\n";
    let mut manifest = demo();
    manifest.reranker = Some(RerankerConfig {
        top_k: 9,
        ..Default::default()
    });
    let saved = save_manifest(Some(before), &manifest).unwrap();
    assert!(saved.contains("# mine\n[custom]\n# a key\nkey = 0x1F # hex\n"), "{saved}");
    assert!(saved.contains("# ranking\n[reranker] # on top\n# how many\ntop_k = 9 # few\n"), "{saved}");
    assert!(saved.contains("mine = [ 1,2 ]\n"), "{saved}");
    assert!(!saved.contains("# which"), "{saved}");
    assert_eq!(read(&saved)["reranker"]["top_k"].as_integer(), Some(9));

    manifest.reranker = Some(RerankerConfig {
        model: Some("n".to_string()),
        ..Default::default()
    });
    let saved = save_manifest(Some(before), &manifest).unwrap();
    assert!(saved.contains("# which\nmodel = \"n\"\n"), "{saved}");

    manifest.reranker = None;
    let saved = save_manifest(Some(before), &manifest).unwrap();
    assert!(saved.contains("# how many\ntop_k = 3 # few\n"), "{saved}");
}

#[test]
fn the_header_stands_once() {
    let first = save_manifest(None, &demo()).unwrap();
    assert!(first.starts_with(MANIFEST_HEADER));
    let second = save_manifest(Some(&first), &demo()).unwrap();
    assert_eq!(second.matches("# sempkg workspace manifest").count(), 1);
}

#[test]
fn a_registry_that_is_no_array_of_tables_is_refused() {
    let mut manifest = demo();
    manifest.registries.push(RegistryEntry {
        name: "default".to_string(),
        url: "https://r.example".to_string(),
    });
    assert_eq!(
        save_manifest(Some("registry = 3\n"), &manifest).unwrap_err(),
        "registry must be an array of tables"
    );
}

#[test]
fn every_field_of_a_dependency_is_written() {
    let mut manifest = WorkspaceManifest::default();
    let mut d = dep("1.2.3");
    d.git = Some("github:o/r".to_string());
    d.git_ref = Some("v1.2.3".to_string());
    d.subdir = Some("core".to_string());
    d.full = true;
    d.include_source = true;
    d.source_glob = Some("**/*.rs".to_string());
    d.source_dirs = vec!["src".to_string(), "lib".to_string()];
    d.docs_dirs = vec!["docs".to_string()];
    d.exclude_dirs = vec!["target".to_string()];
    manifest.dependencies.insert("r".to_string(), d);
    let saved = save_manifest(None, &manifest).unwrap();
    let loaded = read(&saved);
    let r = &loaded["dependencies"]["r"];
    assert_eq!(r["git"].as_str(), Some("github:o/r"));
    assert_eq!(r["git_ref"].as_str(), Some("v1.2.3"));
    assert_eq!(r["subdir"].as_str(), Some("core"));
    assert_eq!(r["full"].as_bool(), Some(true));
    assert_eq!(r["include_source"].as_bool(), Some(true));
    assert_eq!(r["source_glob"].as_str(), Some("**/*.rs"));
    assert_eq!(r["source_dirs"].as_array().unwrap().len(), 2);
    assert_eq!(r["docs_dirs"][0].as_str(), Some("docs"));
    assert_eq!(r["exclude_dirs"][0].as_str(), Some("target"));
}

#[test]
fn groups_are_written() {
    let mut manifest = WorkspaceManifest::default();
    let mut dev = StringMap::new();
    dev.insert("pytest".to_string(), dep("3.0.0"));
    manifest.dependency_groups.insert("dev".to_string(), dev);
    let loaded = read(&save_manifest(None, &manifest).unwrap());
    assert_eq!(
        loaded["dependency-groups"]["dev"]["pytest"]["version"].as_str(),
        Some("3.0.0")
    );
}

#[test]
fn own_dependencies_win_over_groups() {
    let mut manifest = demo();
    let mut dev = StringMap::new();
    dev.insert("demo".to_string(), dep("9.9.9"));
    dev.insert("extra".to_string(), dep("2.0.0"));
    manifest.dependency_groups.insert("dev".to_string(), dev);

    let (deps, _) = manifest.resolve_deps(&vec!["dev".to_string()], false);
    assert_eq!(deps.get("demo").unwrap().version, "1.0.0");
    assert_eq!(deps.get("extra").unwrap().version, "2.0.0");

    let (deps, warnings) = manifest.resolve_deps(&vec!["nope".to_string()], false);
    assert_eq!(deps.len(), 1);
    assert_eq!(warnings.len(), 1);

    let (deps, _) = manifest.resolve_deps(&vec![], true);
    assert_eq!(deps.len(), 2);
    assert_eq!(manifest.group_names(), vec!["dev"]);
}

#[test]
fn registries_are_found_by_name_or_by_default() {
    let mut manifest = init_manifest(Some("https://r.example"));
    assert_eq!(manifest.default_registry().unwrap().name, "default");
    manifest.registries.push(RegistryEntry {
        name: "other".to_string(),
        url: "https://o.example".to_string(),
    });
    let mut d = dep("1.0.0");
    assert_eq!(manifest.registry_for(&d).unwrap().name, "default");
    d.registry = Some("other".to_string());
    assert_eq!(manifest.registry_for(&d).unwrap().url, "https://o.example");
    assert!(manifest.get_registry("missing").is_none());
    assert!(init_manifest(None).default_registry().is_none());
}

#[test]
fn a_key_path_is_found_below_the_manifest() {
    let mut manifest = demo();
    assert_eq!(manifest.verify_key_path("/ws"), None);
    manifest.workspace = Some(WorkspaceSection {
        verify_key: Some("keys/k.pem".to_string()),
    });
    assert_eq!(
        manifest.verify_key_path("/ws"),
        Some("/ws/keys/k.pem".to_string())
    );
}

fn lock_entry(name: &str, version: &str) -> LockEntry {
    LockEntry {
        name: name.to_string(),
        version: version.to_string(),
        registry_url: "https://r.example".to_string(),
        sha256: "00".to_string(),
        signed: false,
        manifest_checksums: StringMap::new(),
        commit_sha: None,
    }
}

#[test]
fn a_lock_has_each_package_once() {
    let mut lock = LockFile::default();
    lock.upsert(lock_entry("b", "1"));
    lock.upsert(lock_entry("a", "1"));
    lock.upsert(lock_entry("b", "2"));
    assert_eq!(lock.packages.len(), 2);
    assert_eq!(lock.find("b").unwrap().version, "2");
    assert_eq!(lock.find("a").unwrap().version, "1");
    assert!(lock.find("c").is_none());
}

#[test]
fn a_manifest_is_made_once() {
    assert!(check_init("/ws", false).is_ok());
    assert!(check_init("/ws", true).unwrap_err().contains("sempkg.toml"));
}
