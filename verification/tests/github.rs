use sempkg::github::{
    archive_tarball_url, commit_ref, host_env_suffix, parse_source, read_commit_body, read_sha,
    resolve, sanitize_bundle_name, CommitBody, ResolvedSource,
};

#[test]
fn test_parse_shorthand_with_ref() {
    let src = parse_source("pandas-dev/pandas@v2.2.2").unwrap();
    assert_eq!(src.host, "github.com");
    assert_eq!(src.owner, "pandas-dev");
    assert_eq!(src.repo, "pandas");
    assert_eq!(src.git_ref.as_deref(), Some("v2.2.2"));
    assert!(src.subdir.is_none());
}

#[test]
fn test_host_env_suffix() {
    assert_eq!(host_env_suffix("github.com"), "GITHUB_COM");
    assert_eq!(host_env_suffix("github.company.com"), "GITHUB_COMPANY_COM");
}

#[test]
fn test_parse_shorthand_no_ref() {
    let src = parse_source("pandas-dev/pandas").unwrap();
    assert_eq!(src.owner, "pandas-dev");
    assert_eq!(src.repo, "pandas");
    assert!(src.git_ref.is_none());
}

#[test]
fn test_parse_full_url() {
    let src = parse_source("https://github.com/pandas-dev/pandas").unwrap();
    assert_eq!(src.host, "github.com");
    assert_eq!(src.owner, "pandas-dev");
    assert_eq!(src.repo, "pandas");
    assert!(src.git_ref.is_none());
}

#[test]
fn test_parse_enterprise_releases_tag_url() {
    let src = parse_source("https://github.company.com/org/repo/releases/tag/v3.0.3").unwrap();
    assert_eq!(src.host, "github.company.com");
    assert_eq!(src.owner, "org");
    assert_eq!(src.repo, "repo");
    assert_eq!(src.git_ref.as_deref(), Some("v3.0.3"));
}

#[test]
fn test_parse_url_with_at_ref() {
    let src = parse_source("https://github.com/pandas-dev/pandas@v2.2.2").unwrap();
    assert_eq!(src.git_ref.as_deref(), Some("v2.2.2"));
}

#[test]
fn test_parse_url_tree_ref() {
    let src = parse_source("https://github.com/pandas-dev/pandas/tree/v2.2.2").unwrap();
    assert_eq!(src.git_ref.as_deref(), Some("v2.2.2"));
}

#[test]
fn test_parse_url_releases_tag() {
    let src = parse_source("https://github.com/pandas-dev/pandas/releases/tag/v2.2.2").unwrap();
    assert_eq!(src.git_ref.as_deref(), Some("v2.2.2"));
}

#[test]
fn test_parse_url_git_suffix() {
    let src = parse_source("https://github.com/owner/repo.git@v1.0").unwrap();
    assert_eq!(src.repo, "repo");
    assert_eq!(src.git_ref.as_deref(), Some("v1.0"));
}

#[test]
fn test_parse_subdir() {
    let src = parse_source("owner/repo@v1.0#packages/core").unwrap();
    assert_eq!(src.subdir.as_deref(), Some("packages/core"));
    assert_eq!(src.git_ref.as_deref(), Some("v1.0"));
}

#[test]
fn test_bare_name_version_is_none() {
    assert!(parse_source("pandas@2.2.2").is_none());
    assert!(parse_source("aws-sdk@1.11.210").is_none());
    assert!(parse_source("mylib").is_none());
}

#[test]
fn test_sanitize_bundle_name() {
    assert_eq!(sanitize_bundle_name("pandas"), "pandas");
    assert_eq!(sanitize_bundle_name("pandas-dev"), "pandas-dev");
    assert_eq!(sanitize_bundle_name("My_Lib"), "my-lib");
    assert_eq!(sanitize_bundle_name("--bad--"), "bad");
    assert_eq!(sanitize_bundle_name("a"), "a00");
}

#[test]
fn test_archive_url_tag() {
    let r = ResolvedSource {
        host: "github.com".into(),
        owner: "pandas-dev".into(),
        repo: "pandas".into(),
        git_ref: "v2.2.2".into(),
        commit_sha: "a".repeat(40),
        is_tag: true,
        package_name: "pandas".into(),
        version: "2.2.2".into(),
        source_repo_url: "https://github.com/pandas-dev/pandas".into(),
    };
    assert_eq!(
        archive_tarball_url(&r),
        "https://github.com/pandas-dev/pandas/archive/refs/tags/v2.2.2.tar.gz"
    );
}

#[test]
fn test_archive_url_branch() {
    let r = ResolvedSource {
        host: "github.com".into(),
        owner: "owner".into(),
        repo: "repo".into(),
        git_ref: "main".into(),
        commit_sha: "b".repeat(40),
        is_tag: false,
        package_name: "repo".into(),
        version: "main".into(),
        source_repo_url: "https://github.com/owner/repo".into(),
    };
    assert_eq!(
        archive_tarball_url(&r),
        "https://github.com/owner/repo/archive/refs/heads/main.tar.gz"
    );
}

#[test]
fn test_archive_url_enterprise_tag() {
    let r = ResolvedSource {
        host: "github.company.com".into(),
        owner: "org".into(),
        repo: "repo".into(),
        git_ref: "v3.0.3".into(),
        commit_sha: "c".repeat(40),
        is_tag: true,
        package_name: "repo".into(),
        version: "3.0.3".into(),
        source_repo_url: "https://github.company.com/org/repo".into(),
    };
    assert_eq!(
        archive_tarball_url(&r),
        "https://github.company.com/org/repo/archive/refs/tags/v3.0.3.tar.gz"
    );
}

#[test]
fn names_that_walk_are_refused() {
    assert!(parse_source("owner/..").is_none());
    assert!(parse_source("owner/.").is_none());
    assert!(parse_source("owner/repo/more").is_none());
    assert!(parse_source("../repo").is_none());
    assert!(parse_source("name@1.0").is_none());
    assert_eq!(parse_source("owner/re.po").unwrap().repo, "re.po");
}

#[test]
fn one_v_falls_off_a_reference() {
    let src = parse_source("o/r").unwrap();
    let sha = "0123456789abcdef".repeat(3)[..40].to_string();
    let version = |git_ref: &str| resolve(&src, git_ref, &sha, true).version;
    assert_eq!(version("v1.0"), "1.0");
    assert_eq!(version("vv1"), "v1");
    assert_eq!(version("1.0"), "1.0");
    assert_eq!(version("v"), "");
    assert_eq!(version(""), "");
    assert!(commit_ref(&sha) && !commit_ref("v1.0"));
    assert_eq!(version(&sha), "0123456789ab");
}

#[test]
fn commits_are_read_from_answers() {
    let sha = "ABCDEF0123".repeat(4);
    match read_commit_body(&format!(" {sha}\n")) {
        CommitBody::Sha(s) => assert_eq!(s, sha.to_lowercase()),
        CommitBody::Told(_) => panic!("the answer is the commit"),
    }
    match read_commit_body(" {\"SHA\": \"AB\"} ") {
        CommitBody::Told(t) => assert_eq!(t, "{\"sha\": \"ab\"}"),
        CommitBody::Sha(_) => panic!("the answer tells the commit"),
    }
    assert_eq!(read_sha(Some("AbC")), Ok("abc".to_string()));
    assert_eq!(
        read_sha(None).unwrap_err(),
        "Could not parse commit SHA from GitHub response"
    );
}
