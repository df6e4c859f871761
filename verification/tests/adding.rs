use sempkg::adding::{
    refresh_request, sync_request, Action, AddRequest, GitHubAdd, LocalAdd, Stage,
};
use sempkg::deps::{local_dependencies, SyncRun};
use sempkg::github::{parse_source, GitHubSource, ReleaseAsset, ResolvedSource};
use sempkg::manifest::{DependencyEntry, WorkspaceManifest};
use sempkg::packing::{no_options, SourceOptions};
use sempkg::strmap::StringMap;

fn request() -> AddRequest {
    AddRequest {
        group: None,
        force_build: false,
        reinstall: false,
        full: false,
        name: None,
        version: None,
        options: SourceOptions { include_source: true, ..no_options() },
        description: Some("mine".to_string()),
    }
}

fn source(spec: &str) -> GitHubSource {
    parse_source(spec).unwrap()
}

fn resolved() -> ResolvedSource {
    ResolvedSource {
        host: "github.com".to_string(),
        owner: "o".to_string(),
        repo: "r".to_string(),
        git_ref: "v1.0".to_string(),
        commit_sha: "a".repeat(40),
        is_tag: true,
        package_name: "r".to_string(),
        version: "1.0".to_string(),
        source_repo_url: "https://github.com/o/r".to_string(),
    }
}

fn recorded(a: Action) -> DependencyEntry {
    match a {
        Action::Record(r) => {
            assert_eq!(r.name, "r");
            assert_eq!(r.source, "github:o/r");
            assert_eq!(r.commit_sha, Some("a".repeat(40)));
            r.dep
        }
        _ => panic!("a record was expected"),
    }
}

#[test]
fn a_release_is_installed_without_building() {
    let mut add = GitHubAdd::new(source("o/r@v1.0"), request(), resolved());
    assert!(matches!(add.checked(false), Action::FindRelease));
    let asset = ReleaseAsset { bundle_url: "https://x.example/b".to_string(), sig_url: None };
    assert!(matches!(add.looked(Some(asset)), Action::Download(u) if u == "https://x.example/b"));
    assert!(matches!(add.downloaded(), Action::Install(f) if f == "https://x.example/b"));
    let dep = recorded(add.installed());
    assert!(!dep.include_source);
    assert_eq!(dep.git_ref.as_deref(), Some("v1.0"));
    assert_eq!(dep.description.as_deref(), Some("mine"));
    assert!(add.stage == Stage::Recording);
}

#[test]
fn without_a_release_the_archive_is_built() {
    let mut add = GitHubAdd::new(source("o/r@v1.0#core"), request(), resolved());
    add.checked(false);
    match add.looked(None) {
        Action::FetchArchive(u) => {
            assert_eq!(u, "https://github.com/o/r/archive/refs/tags/v1.0.tar.gz");
        }
        _ => panic!("the archive"),
    }
    assert_eq!(
        add.fetched("/t", false).err(),
        Some("Subdir 'core' not found in the repository archive.".to_string())
    );
    match add.fetched("/t", true).unwrap() {
        Action::Build(p) => {
            assert_eq!(p.source_dirs, vec!["/t/core"]);
            assert!(p.include_source);
        }
        _ => panic!("a build"),
    }
    assert!(matches!(add.built(), Action::Install(f) if f == "github:github.com/o/r@v1.0"));
    let dep = recorded(add.installed());
    assert!(dep.include_source);
    assert_eq!(dep.subdir.as_deref(), Some("core"));
}

#[test]
fn what_is_installed_is_only_recorded() {
    let mut add = GitHubAdd::new(source("o/r"), request(), resolved());
    assert!(recorded(add.checked(true)).include_source);

    let mut q = request();
    q.reinstall = true;
    q.force_build = true;
    q.full = true;
    q.version = Some("9".to_string());
    let mut add = GitHubAdd::new(source("o/r"), q, resolved());
    assert_eq!(add.resolved.version, "9");
    assert!(matches!(add.checked(true), Action::Clone));
}

#[test]
fn a_directory_is_built_and_recorded() {
    let none: Option<String> = None;
    let name = Some("my lib".to_string());
    let mut asked = request();
    asked.version = Some("2.0".to_string());
    let mut add = LocalAdd::new(asked, "/ws/lib", "/ws", &name, &none);
    assert_eq!((add.name.as_str(), add.version.as_str()), ("my-lib", "2.0"));
    assert!(matches!(add.begin(), Action::Check));
    match add.checked(false) {
        Action::Build(p) => assert_eq!(p.source_repo, "local:/ws/lib"),
        _ => panic!("a build"),
    }
    assert!(matches!(add.built(), Action::Install(f) if f == "/ws/lib"));
    match add.installed() {
        Action::Record(r) => {
            assert_eq!(r.source, "local:lib");
            assert_eq!(r.dep.local.as_deref(), Some("lib"));
            assert_eq!(r.commit_sha, None);
        }
        _ => panic!("a record"),
    }
}

fn unversioned() -> LocalAdd {
    let none: Option<String> = None;
    LocalAdd::new(request(), "/ws", "/ws", &none, &none)
}

#[test]
fn git_gives_a_directory_its_version() {
    let mut add = unversioned();
    assert!(add.stage == Stage::Describing);
    match add.begin() {
        Action::AskGit(args) => assert_eq!(args[2], "describe"),
        _ => panic!("git is asked"),
    }
    assert!(matches!(add.answered(true, "v3.1\n"), Action::Check));
    assert_eq!(add.version, "3.1");
    assert!(add.stage == Stage::Checking);

    let mut add = unversioned();
    match add.answered(false, "") {
        Action::AskGit(args) => {
            assert_eq!(args, vec!["-C", "/ws", "rev-parse", "--short=12", "HEAD"])
        }
        _ => panic!("git is asked again"),
    }
    assert!(add.stage == Stage::Naming);
    assert!(matches!(add.answered(true, "0123456789ab\n"), Action::Check));
    assert_eq!(add.version, "0123456789ab");
}

#[test]
fn a_directory_without_git_is_local() {
    let mut add = unversioned();
    assert!(matches!(add.answered(true, " \n"), Action::AskGit(_)));
    assert!(matches!(add.answered(false, "fatal"), Action::Check));
    assert_eq!((add.name.as_str(), add.version.as_str()), ("local-package", "local"));
    assert!(matches!(add.checked(true), Action::Record(r) if r.source == "local:."));
}

#[test]
fn recorded_dependencies_are_asked_for_again() {
    let mut add = GitHubAdd::new(source("o/r@v1.0"), request(), resolved());
    let dep = recorded(add.checked(true));
    let q = sync_request("r", &dep, true);
    assert_eq!(q.name.as_deref(), Some("r"));
    assert_eq!(q.version, None);
    assert!(q.reinstall && q.options.include_source && !q.force_build);
    let mut local = dep.clone();
    local.git = None;
    local.local = Some(".".to_string());
    assert_eq!(sync_request("r", &local, false).version.as_deref(), Some("1.0"));

    let mut m = WorkspaceManifest::default();
    let mut group = StringMap::new();
    group.insert("r".to_string(), local.clone());
    m.dependency_groups.insert("dev".to_string(), group);
    let locals = local_dependencies(&m, "/ws");
    let q = refresh_request(&locals[0], &local);
    assert_eq!(q.group.as_deref(), Some("dev"));
    assert!(q.reinstall);
}

#[test]
fn a_sync_tells_what_it_installed() {
    let mut add = GitHubAdd::new(source("o/r@v1.0"), request(), resolved());
    let dep = recorded(add.checked(true));
    let mut deps = StringMap::new();
    for name in ["b", "a", "c"] {
        deps.insert(name.to_string(), dep.clone());
    }
    let mut run = SyncRun::new(deps);
    let mut names = Vec::new();
    while let Some((name, _)) = run.current() {
        names.push(name.clone());
        let skipped = name == "b";
        run.finish(skipped);
    }
    assert_eq!(names, vec!["a", "b", "c"]);
    assert_eq!(run.report(), "Installed: a@1.0, c@1.0");
    assert_eq!(
        SyncRun::new(StringMap::new()).report(),
        "All dependencies already installed."
    );
}
