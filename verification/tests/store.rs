use sempkg::lookup::{
    available_names, list_packages, local_docs_dir, local_source, resolve_code_path,
    resolve_codegraph_path, resolve_lance_path, show_bundle_line, Audience, Registered,
};
use sempkg::messages::{bundle_status, installed_from, installed_message, list_all};
use sempkg::packages::PackageRegistry;
use sempkg::store::{
    check_removal, create_codegraph_view, entry_target, get_version, global_store_dir,
    global_store_dir_in, install_target, list_all_bundles, repair_codegraph_view, resolve_bundle,
    resolve_bundle_spec, workspace_store_dir, BundleInfo, BundleManifest, BundleScope,
    BundleStore, Installed, ManifestExt, OnDisk,
};
use sempkg::strmap::StringMap;
use sempkg::versions::is_earlier;

fn on_disk(all: bool) -> OnDisk {
    OnDisk { lance: all, code: all, graph: all, graph_filled: all, view: all }
}

fn bundle(name: &str, version: &str, scope: BundleScope, all: bool) -> BundleInfo {
    BundleInfo {
        name: name.to_string(),
        version: version.to_string(),
        bundle_dir: format!("/store/{name}/{version}"),
        manifest: BundleManifest {
            name: name.to_string(),
            version: version.to_string(),
            source_repo: "https://x.example".to_string(),
            commit_hash: "c0".to_string(),
            created_at: "now".to_string(),
            extensions: vec!["lance".to_string()],
            checksums: StringMap::new(),
        },
        archive_sha256: "sum".to_string(),
        scope,
        lists_lance: all,
        lists_code: all,
        on_disk: on_disk(all),
    }
}

fn installed() -> Installed {
    Installed {
        workspace: vec![bundle("a", "1", BundleScope::Workspace, true)],
        global: vec![
            bundle("a", "2", BundleScope::Global, true),
            bundle("b", "1", BundleScope::Global, false),
        ],
    }
}

#[test]
fn stores_have_their_places() {
    assert_eq!(workspace_store_dir("/ws"), "/ws/.sempkg/bundles");
    assert_eq!(
        global_store_dir_in(&Some("/home/u".to_string())),
        "/home/u/.sempkg/bundles"
    );
    let home = dirs::home_dir().map(|p| p.to_string_lossy().into_owned());
    assert_eq!(global_store_dir(), global_store_dir_in(&home));
    let store = BundleStore::workspace("/ws");
    assert_eq!(store.bundle_dir("a", "1"), "/ws/.sempkg/bundles/a/1");
    assert_eq!(BundleStore::global().scope.as_str(), "global");
}

#[test]
fn the_workspace_comes_first() {
    let s = installed();
    assert_eq!(resolve_bundle(&s, "a").unwrap().version, "1");
    assert_eq!(resolve_bundle_spec(&s, "a@2").unwrap().version, "2");
    assert!(resolve_bundle(&s, "c").is_none());
    let names: Vec<String> = list_all_bundles(&s).iter().map(|b| b.show_name()).collect();
    assert_eq!(names, vec!["a@1", "a@2", "b@1"]);
    assert_eq!(get_version(&s.global, "b", "1").unwrap().name, "b");
}

#[test]
fn a_bundle_is_installed_once() {
    let store = BundleStore::workspace("/ws");
    let m = bundle("a", "1", BundleScope::Workspace, true).manifest;
    assert_eq!(
        install_target(&store, &m, false).unwrap(),
        "/ws/.sempkg/bundles/a/1"
    );
    assert_eq!(
        install_target(&store, &m, true).unwrap_err().message(),
        "Bundle already installed: a@1"
    );
    assert!(check_removal("a", "1", true).is_ok());
    assert_eq!(
        check_removal("a", "1", false).unwrap_err().message(),
        "Bundle not found: a@1"
    );
    assert!(m.has_lance("lance"));
    assert!(!m.has_code("code"));
}

#[test]
fn unpacked_entries_stay_inside() {
    assert_eq!(entry_target("/d", "lance/x").unwrap(), "/d/lance/x");
    assert!(entry_target("/d", "../x").is_err());
    assert!(entry_target("/d", "a/../../x").is_err());
    assert!(entry_target("/d", "/etc/x").is_err());
}

#[test]
fn the_link_to_a_graph_is_made_where_it_is_missing() {
    let mut d = on_disk(true);
    assert!(!create_codegraph_view(d));
    assert_eq!(repair_codegraph_view(d), (false, false));
    d.view = false;
    assert!(create_codegraph_view(d));
    assert_eq!(repair_codegraph_view(d), (true, true));
    assert_eq!(repair_codegraph_view(on_disk(false)), (false, true));
}

#[test]
fn packages_are_resolved_before_bundles() {
    let s = installed();
    let found = Registered { dir: "/p".to_string(), indexed: true, docs: true };
    let none = Vec::new();
    let graph = |name: &str, reg: &Option<Registered>| {
        resolve_codegraph_path(name, reg, &s, &none, Audience::Terminal)
    };
    assert_eq!(graph("a", &Some(found.clone())).unwrap(), "/p");
    assert_eq!(graph("a", &None).unwrap(), "/store/a/1");
    assert_eq!(
        graph("b", &None).unwrap_err(),
        "Bundle 'b@1' has no codegraph index."
    );
    assert_eq!(
        graph("c", &None).unwrap_err(),
        "Package 'c' not found. No packages or bundles available."
    );
    let bare = Registered { dir: "/p".to_string(), indexed: false, docs: false };
    assert_eq!(
        graph("p", &Some(bare.clone())).unwrap_err(),
        "Package 'p' is not indexed. Run 'sempkg pkg reindex p' first."
    );
    assert_eq!(
        resolve_lance_path("p", &Some(found), &s, Audience::Terminal).unwrap(),
        "/p/.sempkg/lance"
    );
    assert_eq!(
        resolve_lance_path("p", &Some(bare), &s, Audience::Terminal).unwrap_err(),
        "Package 'p' has no LanceDB index. Run 'sempkg pkg lance-index p' to build one."
    );
    assert_eq!(
        resolve_lance_path("a", &None, &s, Audience::Terminal).unwrap(),
        "/store/a/1/lance"
    );
    assert!(resolve_lance_path("b", &None, &s, Audience::Terminal).is_err());
    assert_eq!(resolve_code_path("a@2", &s).unwrap(), "/store/a/2/code");
    assert!(resolve_code_path("b", &s).unwrap_err().contains("--include-source"));
    assert!(resolve_code_path("zz", &s).is_err());
}

#[test]
fn everything_that_is_installed_is_listed() {
    let s = installed();
    let mut reg = PackageRegistry::empty();
    reg.add("p", "p", &Some("/p".to_string()), "mine").unwrap();
    assert_eq!(available_names(&reg, &s), vec!["p", "a@1", "a@2", "b@1"]);
    let listed = list_packages(&reg, &vec![true], &s);
    assert!(listed.contains("**p** [indexed]  /p  \u{2014} mine"), "{listed}");
    assert!(listed.contains("**b** @ 1  [no graph]  [global]"), "{listed}");
    let nothing = Installed { workspace: vec![], global: vec![] };
    assert!(list_packages(&PackageRegistry::empty(), &vec![], &nothing)
        .starts_with("No packages or bundles registered."));
    let all = list_all(&reg, &vec![false], &s, &None);
    assert!(all.contains("[NOT indexed]"), "{all}");
    assert_eq!(
        show_bundle_line(&s.workspace[0], &None),
        "  a                    @ 1            [indexed]  [workspace]  +lance  +code"
    );
    assert_eq!(local_docs_dir("/p"), "/p/.sempkg/lance");
    let found = Registered { dir: "/p".to_string(), indexed: true, docs: false };
    let source = local_source("p", &found, None);
    assert_eq!(source.graph_dir.as_deref(), Some("/p"));
    assert_eq!(source.docs_dir, None);
}

#[test]
fn installations_are_told() {
    let b = bundle("a", "1", BundleScope::Workspace, true);
    assert_eq!(
        installed_message(&b, BundleScope::Workspace),
        "Installed a@1 [workspace]  +lance  +code"
    );
    assert_eq!(installed_from(&b, "x"), "Installed a@1 from x  +lance  +code");
    let shown = bundle_status(&b);
    assert!(shown.contains("Bundle: a@1"), "{shown}");
    assert!(shown.contains("Scope:      Workspace"), "{shown}");
}

#[test]
fn versions_count_by_their_numbers() {
    assert!(is_earlier("1.9.0", "1.10.0"));
    assert!(!is_earlier("1.10.0", "1.9.0"));
    assert!(is_earlier("1.2", "1.2.1"));
    assert!(is_earlier("0.9", "1.0"));
    assert!(is_earlier("2.0.0", "2.0.0-4-gabc"));
    assert!(is_earlier("1.0", "local"));
    assert!(!is_earlier("1.01", "1.1"));
    assert!(!is_earlier("1.1", "1.01"));
    assert!(!is_earlier("", ""));
    assert!(is_earlier("", "1"));
}

#[test]
fn a_name_means_its_latest_version() {
    let versions = |vs: &[&str]| -> Vec<BundleInfo> {
        vs.iter().map(|v| bundle("a", v, BundleScope::Global, true)).collect()
    };
    let mut s = Installed { workspace: vec![], global: versions(&["1.10.0", "1.9.0", "1.2.0"]) };
    assert_eq!(resolve_bundle(&s, "a").unwrap().version, "1.10.0");
    assert_eq!(resolve_bundle_spec(&s, "a@1.9.0").unwrap().version, "1.9.0");
    assert_eq!(resolve_bundle_spec(&s, "a@3.0.0").unwrap().version, "1.10.0");
    s.workspace = versions(&["1.0.0"]);
    assert_eq!(resolve_bundle(&s, "a").unwrap().version, "1.0.0");
}
