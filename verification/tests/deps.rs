use sempkg::deps::{
    add_bundle, find_local_dependency_for_workspace, insert_dep, installed_lock_entry,
    local_dependencies, prune_lock, remove_dep, sync_report, sync_step, AddOptions, SyncStep,
};
use sempkg::manifest::{
    init_manifest, DependencyEntry, LockEntry, LockFile, WorkspaceManifest,
};
use sempkg::strmap::StringMap;

fn dep(version: &str) -> DependencyEntry {
    DependencyEntry {
        version: version.to_string(),
        registry: None,
        url: None,
        git: None,
        git_ref: None,
        subdir: None,
        full: false,
        local: None,
        include_source: false,
        source_glob: None,
        source_dirs: vec![],
        docs_dirs: vec![],
        exclude_dirs: vec![],
        description: None,
    }
}

fn options() -> AddOptions {
    AddOptions { url: None, registry_url: None, registry: None, group: None, description: None }
}

#[test]
fn descriptions_are_kept() {
    let mut m = WorkspaceManifest::default();
    let mut first = dep("1");
    first.description = Some("mine".to_string());
    insert_dep(&mut m, "a", first, None);
    insert_dep(&mut m, "a", dep("2"), None);
    let found = m.find_dependency("a").unwrap();
    assert_eq!(found.version, "2");
    assert_eq!(found.description.as_deref(), Some("mine"));
    insert_dep(&mut m, "b", dep("1"), Some("dev"));
    assert!(m.dependency_groups.get("dev").unwrap().get("b").is_some());
}

#[test]
fn bundles_are_added_from_where_they_come() {
    let mut m = WorkspaceManifest::default();
    let e = add_bundle(&mut m, "a@1", "a", "1", &options()).unwrap_err();
    assert!(e.starts_with("No registries defined in sempkg.toml."), "{e}");

    let mut o = options();
    o.registry_url = Some("https://r.example/".to_string());
    add_bundle(&mut m, "a@1", "a", "1", &o).unwrap();
    assert_eq!(m.registries[0].url, "https://r.example");
    assert_eq!(m.find_dependency("a").unwrap().registry.as_deref(), Some("default"));

    add_bundle(&mut m, "b@1", "b", "1", &options()).unwrap();
    assert_eq!(m.find_dependency("b").unwrap().registry.as_deref(), Some("default"));

    let mut o = options();
    o.url = Some("https://x.example/c.sembundle".to_string());
    o.group = Some("dev".to_string());
    add_bundle(&mut m, "c@1", "c", "1", &o).unwrap();
    let c = m.dependency_groups.get("dev").unwrap().get("c").unwrap();
    assert_eq!(c.url.as_deref(), Some("https://x.example/c.sembundle"));
    assert_eq!(c.registry, None);
}

#[test]
fn dependencies_are_removed() {
    let mut m = WorkspaceManifest::default();
    insert_dep(&mut m, "a", dep("1"), None);
    insert_dep(&mut m, "b", dep("1"), Some("dev"));
    assert_eq!(
        remove_dep(&mut m, "b", None).unwrap_err(),
        "'b' not found in sempkg.toml. Use --group <name> to remove from a specific group."
    );
    assert_eq!(
        remove_dep(&mut m, "a", Some("dev")).unwrap_err(),
        "'a' not found in sempkg.toml."
    );
    remove_dep(&mut m, "a", None).unwrap();
    remove_dep(&mut m, "b", Some("dev")).unwrap();
    assert!(m.find_dependency("a").is_none());
    assert!(m.find_dependency("b").is_none());
}

#[test]
fn a_sync_goes_by_the_source() {
    let m = init_manifest(Some("https://r.example"));
    let step = |d: &DependencyEntry, reinstall: bool, present: bool| {
        sync_step(&m, "/ws", "a", d, reinstall, present, true)
    };
    let mut git = dep("1.0");
    git.git = Some("github:o/r".to_string());
    match step(&git, false, true).unwrap() {
        SyncStep::GitHub(s) => assert_eq!(s.git_ref.as_deref(), Some("1.0")),
        _ => panic!("a repository"),
    }
    git.git = Some("gitlab:o/r".to_string());
    assert!(step(&git, false, true).unwrap_err().starts_with("Invalid git source 'gitlab:o/r'"));
    let mut local = dep("1.0");
    local.local = Some("../x".to_string());
    assert!(matches!(step(&local, false, true).unwrap(), SyncStep::Local(p) if p == "/ws/../x"));
    let mut url = dep("1.0");
    url.url = Some("u".to_string());
    assert!(matches!(step(&url, false, true).unwrap(), SyncStep::Skip(s, false) if s == "u"));
    assert!(matches!(step(&url, true, true).unwrap(), SyncStep::FromUrl(_)));
    match step(&dep("1.0"), false, false).unwrap() {
        SyncStep::FromRegistry(n, u, signed) => {
            assert_eq!((n.as_str(), u.as_str(), signed), ("default", "https://r.example", true));
        }
        _ => panic!("a registry"),
    }
    let bare = WorkspaceManifest::default();
    assert_eq!(
        sync_step(&bare, "/ws", "a", &dep("1"), false, false, false).unwrap_err(),
        "No registry found for dependency 'a'"
    );
    assert_eq!(sync_report(&vec![]), "All dependencies already installed.");
    assert_eq!(
        sync_report(&vec!["a@1".to_string(), "b@2".to_string()]),
        "Installed: a@1, b@2"
    );
}

#[test]
fn records_that_nobody_wants_are_dropped() {
    let entry = |name: &str| LockEntry {
        name: name.to_string(),
        version: "1".to_string(),
        registry_url: String::new(),
        sha256: String::new(),
        signed: false,
        manifest_checksums: StringMap::new(),
        commit_sha: None,
    };
    let mut lock = LockFile { packages: vec![entry("a"), entry("b"), entry("c")] };
    prune_lock(&mut lock, &vec!["a".to_string()], &vec!["c".to_string()]);
    let names: Vec<&str> = lock.packages.iter().map(|e| e.name.as_str()).collect();
    assert_eq!(names, vec!["a", "c"]);
    assert_eq!(
        installed_lock_entry(None, "a", "1", "u", false, &None).unwrap_err(),
        "Installed bundle a@1 is missing from the bundle store"
    );
}

#[test]
fn the_workspace_finds_itself() {
    let mut m = WorkspaceManifest::default();
    let mut own = dep("1");
    own.local = Some(".".to_string());
    insert_dep(&mut m, "me", own.clone(), None);
    insert_dep(&mut m, "other", dep("1"), None);
    let locals = local_dependencies(&m, "/ws");
    assert_eq!(locals.len(), 1);
    let here = vec![Some("/ws".to_string())];
    assert_eq!(find_local_dependency_for_workspace(&locals, &here, "/ws"), Ok(0));
    let there = vec![Some("/elsewhere".to_string())];
    assert!(find_local_dependency_for_workspace(&locals, &there, "/ws")
        .unwrap_err()
        .starts_with("No local dependency in sempkg.toml points at '/ws'."));
    let lost = vec![None];
    assert!(find_local_dependency_for_workspace(&locals, &lost, "/ws")
        .unwrap_err()
        .contains("Failed to canonicalize local dependency path '.'"));
    insert_dep(&mut m, "again", own, Some("dev"));
    let locals = local_dependencies(&m, "/ws");
    let here = vec![Some("/ws".to_string()), Some("/ws".to_string())];
    assert!(find_local_dependency_for_workspace(&locals, &here, "/ws")
        .unwrap_err()
        .contains("me, again (group dev)"));
}
