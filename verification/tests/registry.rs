use sempkg::registry::{
    base_url, bundle_url, check_archive, check_digest, check_status, index_url, list_available,
    lookup, signature_url, RegistryBundle, RegistryIndex, RegistryPackage,
};
use sempkg::strmap::StringMap;

fn index() -> RegistryIndex {
    let mut packages = StringMap::new();
    for (name, versions) in [("b", vec!["2.0", "1.0"]), ("a", vec!["1.0"])] {
        let mut bundles = StringMap::new();
        for v in versions {
            bundles.insert(
                v.to_string(),
                RegistryBundle { sha256: Some(format!("sum-{v}")), signed: true, url: None },
            );
        }
        packages.insert(name.to_string(), RegistryPackage { bundles });
    }
    RegistryIndex { packages }
}

#[test]
fn bundles_are_looked_up() {
    let found = lookup(&index(), "b", "2.0").unwrap();
    assert_eq!(found.sha256.as_deref(), Some("sum-2.0"));
    assert!(found.signed);
    assert_eq!(
        lookup(&index(), "b", "3.0").unwrap_err().message(),
        "Bundle not found: b@3.0"
    );
    assert!(lookup(&index(), "c", "1.0").is_err());
}

#[test]
fn available_bundles_are_in_order() {
    let s = |a: &str, b: &str| (a.to_string(), b.to_string());
    assert_eq!(
        list_available(&index()),
        vec![s("a", "1.0"), s("b", "1.0"), s("b", "2.0")]
    );
}

#[test]
fn addresses_of_a_registry() {
    assert_eq!(base_url("https://r.example//"), "https://r.example");
    assert_eq!(index_url("https://r.example/"), "https://r.example/index.json");
    assert_eq!(
        bundle_url("https://r.example", "p", "1.0"),
        "https://r.example/bundles/p/1.0/p-1.0.sembundle"
    );
    assert_eq!(
        signature_url("https://r.example", "p", "1.0"),
        "https://r.example/bundles/p/1.0/p-1.0.sembundle.sig"
    );
}

#[test]
fn archives_are_checked_by_their_digest() {
    let bytes = b"abc".to_vec();
    let sum = "ba7816bf8f01cfea414140de5dae2223b00361a396177a9cb410ff61f20015ad";
    assert!(check_archive(&bytes, "p", Some(sum)).is_ok());
    assert!(check_archive(&bytes, "p", None).is_ok());
    assert_eq!(
        check_archive(&bytes, "p", Some("00")).unwrap_err().message(),
        format!("Checksum mismatch for p: expected 00, got {sum}")
    );
    assert!(check_digest("aa", "p", Some("aa")).is_ok());
}

#[test]
fn a_status_of_two_hundred_is_success() {
    assert!(check_status("u", 200, "200 OK").is_ok());
    assert!(check_status("u", 299, "299").is_ok());
    assert_eq!(
        check_status("u", 404, "404 Not Found").unwrap_err().message(),
        "Registry error for u: HTTP 404 Not Found"
    );
    assert!(check_status("u", 199, "199").is_err());
}
