use sempkg::github::{GitHubSource, ResolvedSource};
use sempkg::packing::{
    build_label, check_local_path, git_describe_args, git_head_args, git_short_head_args,
    github_build_plan,
    github_dependency, github_route, local_build_plan, local_dependency, local_git_sha,
    local_git_version, local_package_name, no_options, recorded_message,
    source_root, stored_path, with_overrides, GitHubRoute, SourceOptions,
};
use sempkg::sources::parse_manifest_git_source;

fn resolved() -> ResolvedSource {
    ResolvedSource {
        host: "github.com".to_string(),
        owner: "o".to_string(),
        repo: "r".to_string(),
        git_ref: "v1.0".to_string(),
        commit_sha: "a".repeat(40),
        is_tag: true,
        package_name: "r".to_string(),
        version: "1.0".to_string(),
        source_repo_url: "https://github.com/o/r".to_string(),
    }
}

fn source() -> GitHubSource {
    GitHubSource {
        host: "github.com".to_string(),
        owner: "o".to_string(),
        repo: "r".to_string(),
        git_ref: Some("v1.0".to_string()),
        subdir: None,
    }
}

#[test]
fn names_and_versions_of_directories() {
    assert_eq!(local_package_name(Some("x"), Some("dir")), "x");
    assert_eq!(local_package_name(None, Some("My dir!")), "My-dir-");
    assert_eq!(local_package_name(None, None), "local-package");
    let short = (true, "0123456789ab\n");
    assert_eq!(
        local_git_version((true, " v1.2.3-4-gabc\n"), short),
        Some("1.2.3-4-gabc".to_string())
    );
    assert_eq!(local_git_version((true, "\n"), short), Some("0123456789ab".to_string()));
    assert_eq!(local_git_version((false, "v1"), short), Some("0123456789ab".to_string()));
    assert_eq!(local_git_version((false, "v1"), (false, "0123456789ab")), None);
    assert_eq!(local_git_version((true, ""), (true, " ")), None);
    let sha = "ABCDEF0123".repeat(4);
    assert_eq!(local_git_sha(true, &format!("{sha}\n")), Some(sha.to_lowercase()));
    assert_eq!(local_git_sha(true, "abc"), None);
    assert_eq!(
        git_short_head_args("/p"),
        vec!["-C", "/p", "rev-parse", "--short=12", "HEAD"]
    );
    assert_eq!(git_head_args("/p"), vec!["-C", "/p", "rev-parse", "HEAD"]);
    assert_eq!(
        git_describe_args("/p"),
        vec!["-C", "/p", "describe", "--tags", "--always", "--abbrev=12"]
    );
}

#[test]
fn a_directory_has_to_be_there() {
    assert_eq!(
        check_local_path("/p", false, false).unwrap_err(),
        "Local path '/p' does not exist."
    );
    assert_eq!(
        check_local_path("/p", true, false).unwrap_err(),
        "Local path '/p' is not a directory."
    );
    assert!(check_local_path("/p", true, true).is_ok());
}

#[test]
fn bundles_are_built_below_their_root() {
    let p = github_build_plan(&resolved(), "/t", &no_options());
    assert_eq!(p.source_dirs, vec!["/t"]);
    assert_eq!(p.docs_dirs, vec!["/t"]);
    assert!(p.exclude_dirs.is_empty());
    assert_eq!(p.tag.as_deref(), Some("v1.0"));
    assert_eq!(p.file_name, "r-1.0.sembundle");
    let o = SourceOptions {
        include_source: true,
        source_glob: Some("*.rs".to_string()),
        source_dirs: vec!["src".to_string(), "/abs".to_string()],
        docs_dirs: vec!["docs".to_string()],
        exclude_dirs: vec!["target".to_string()],
    };
    let p = local_build_plan("x", "1", "/t", &None, &o);
    assert_eq!(p.source_dirs, vec!["/t/src", "/abs"]);
    assert_eq!(p.docs_dirs, vec!["/t/docs"]);
    assert_eq!(p.exclude_dirs, vec!["/t/target"]);
    assert_eq!(p.source_repo, "local:/t");
    assert_eq!(p.commit_hash, "");
    assert_eq!(p.tag, None);
    assert!(p.include_source);
}

#[test]
fn a_release_is_tried_before_a_build() {
    assert!(matches!(github_route(false, true, false), GitHubRoute::AlreadyInstalled));
    assert!(matches!(github_route(true, true, false), GitHubRoute::TryRelease));
    assert!(matches!(github_route(false, false, false), GitHubRoute::TryRelease));
    assert!(matches!(github_route(false, false, true), GitHubRoute::Build));
    let r = with_overrides(resolved(), Some("n"), None);
    assert_eq!((r.package_name.as_str(), r.version.as_str()), ("n", "1.0"));
    assert_eq!(build_label(&r), "github:github.com/o/r@v1.0");
}

#[test]
fn a_subdirectory_has_to_be_there() {
    assert_eq!(source_root("/t", &None, false).unwrap(), "/t");
    assert_eq!(source_root("/t", &Some("core".to_string()), true).unwrap(), "/t/core");
    assert_eq!(
        source_root("/t", &Some("core".to_string()), false).unwrap_err(),
        "Subdir 'core' not found in the repository archive."
    );
}

#[test]
fn recorded_dependencies() {
    let d = github_dependency(&resolved(), &source(), true, &no_options(), &Some("x".to_string()));
    assert_eq!(d.git.as_deref(), Some("github:o/r"));
    assert_eq!(d.git_ref.as_deref(), Some("v1.0"));
    assert!(d.full);
    assert_eq!(
        parse_manifest_git_source(d.git.as_deref().unwrap()),
        Some(("github.com".to_string(), "o".to_string(), "r".to_string()))
    );
    assert_eq!(stored_path("/ws", "/ws"), ".");
    assert_eq!(stored_path("/ws/a/b", "/ws"), "a/b");
    assert_eq!(stored_path("/other", "/ws"), "/other");
    let d = local_dependency("1", ".", &no_options(), &None);
    assert_eq!(d.local.as_deref(), Some("."));
    assert_eq!(
        recorded_message("a", "1", Some("dev")),
        "Recorded a@1 in group 'dev' in sempkg.toml."
    );
    assert_eq!(recorded_message("a", "1", None), "Recorded a@1 in sempkg.toml.");
}
