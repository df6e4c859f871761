use sempkg::error::SempkgError;

#[test]
fn every_error_is_told() {
    let s = |t: &str| t.to_string();
    let cases = [
        (
            SempkgError::BundleNotFound { name: s("a"), version: s("1") },
            "Bundle not found: a@1",
        ),
        (
            SempkgError::AlreadyInstalled { name: s("a"), version: s("1") },
            "Bundle already installed: a@1",
        ),
        (
            SempkgError::ChecksumMismatch { path: s("p"), expected: s("e"), actual: s("x") },
            "Checksum mismatch for p: expected e, got x",
        ),
        (
            SempkgError::RegistryError { url: s("u"), message: s("m") },
            "Registry error for u: m",
        ),
        (
            SempkgError::NoLanceIndex(s("d")),
            "No LanceDB documentation index found in bundle 'd'",
        ),
        (SempkgError::LanceError(s("m")), "LanceDB error: m"),
        (SempkgError::Io(s("m")), "I/O error: m"),
        (SempkgError::Json(s("m")), "JSON error: m"),
        (SempkgError::TomlParse(s("m")), "TOML parse error: m"),
    ];
    for (e, want) in cases {
        assert_eq!(e.message(), want);
    }
}
