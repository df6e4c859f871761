use sempkg::sources::{
    add_route, format_manifest_git_source, parse_local_source, parse_local_source_in,
    parse_manifest_git_source, parse_spec, AddRoute,
};

#[test]
fn specs_name_a_version() {
    assert_eq!(
        parse_spec("a@1@2").unwrap(),
        ("a".to_string(), "1@2".to_string())
    );
    assert_eq!(
        parse_spec("a").unwrap_err(),
        "Invalid spec 'a'. Expected format: name@version"
    );
}

#[test]
fn written_sources_are_read_back() {
    let t = |h: &str, o: &str, r: &str| Some((h.to_string(), o.to_string(), r.to_string()));
    assert_eq!(format_manifest_git_source("GitHub.com", "o", "r"), "github:o/r");
    assert_eq!(parse_manifest_git_source("github:o/r"), t("github.com", "o", "r"));
    assert_eq!(
        format_manifest_git_source("git.example", "o", "r"),
        "github:git.example/o/r"
    );
    assert_eq!(
        parse_manifest_git_source("github:git.example/o/r"),
        t("git.example", "o", "r")
    );
    assert_eq!(parse_manifest_git_source("o/r"), None);
    assert_eq!(parse_manifest_git_source("github:a/b/c/d"), None);
}

#[test]
fn directories_are_recognised() {
    let home = Some("/home/u".to_string());
    let found = |s: &str| parse_local_source_in(s, &home);
    for local in ["/usr/lib", ".", "..", "./x", "../x", "C:\\x", "C:/x"] {
        assert_eq!(found(local), Some(local.to_string()));
    }
    assert_eq!(found("  ./x "), Some("./x".to_string()));
    assert_eq!(found("~/x"), Some("/home/u/x".to_string()));
    assert_eq!(parse_local_source_in("~/x", &None), None);
    for other in ["owner/repo", "https://x.example", "github:o/r", "name@1", "~x"] {
        assert_eq!(found(other), None, "{other}");
    }
    assert_eq!(parse_local_source("./x"), Some("./x".to_string()));
}

#[test]
fn what_is_added_decides_the_route() {
    let route = |spec: Option<&str>, url: Option<&str>| add_route(spec, url, &None);
    assert!(matches!(route(Some("."), None), AddRoute::Local(p) if p == "."));
    match route(Some("o/r@v1"), None) {
        AddRoute::GitHub(s) => assert_eq!(s.git_ref.as_deref(), Some("v1")),
        _ => panic!("a repository"),
    }
    assert!(matches!(
        route(None, Some("https://github.com/pandas-dev/pandas/releases/tag/v3.0.3")),
        AddRoute::GitHub(_)
    ));
    match route(Some("a@1"), Some("https://x.example/a.sembundle")) {
        AddRoute::Bundle(n, v) => assert_eq!((n.as_str(), v.as_str()), ("a", "1")),
        _ => panic!("a bundle"),
    }
    match route(None, Some("https://x.example/a.sembundle")) {
        AddRoute::Unclear(m) => assert!(m.contains("still require <SPEC>"), "{m}"),
        _ => panic!("a name is missing"),
    }
    match route(Some("plain"), None) {
        AddRoute::Unclear(m) => {
            assert_eq!(m, "Invalid spec 'plain'. Expected format: name@version");
        }
        _ => panic!("a version is missing"),
    }
}
