//! What can go wrong.

use vstd::prelude::*;

verus! {

/// What can go wrong with bundles, registries and indices.
#[derive(Debug, Clone)]
pub enum SempkgError {
    BundleNotFound { name: String, version: String },
    AlreadyInstalled { name: String, version: String },
    ChecksumMismatch { path: String, expected: String, actual: String },
    RegistryError { url: String, message: String },
    NoLanceIndex(String),
    LanceError(String),
    Io(String),
    Json(String),
    TomlParse(String),
}

/// What is said of an error.
pub open spec fn error_text(e: SempkgError) -> Seq<char> {
    match e {
        SempkgError::BundleNotFound { name, version } => "Bundle not found: "@ + name@ + "@"@
            + version@,
        SempkgError::AlreadyInstalled { name, version } => "Bundle already installed: "@ + name@
            + "@"@ + version@,
        SempkgError::ChecksumMismatch { path, expected, actual } => "Checksum mismatch for "@
            + path@ + ": expected "@ + expected@ + ", got "@ + actual@,
        SempkgError::RegistryError { url, message } => "Registry error for "@ + url@ + ": "@
            + message@,
        SempkgError::NoLanceIndex(b) => "No LanceDB documentation index found in bundle '"@ + b@
            + "'"@,
        SempkgError::LanceError(m) => "LanceDB error: "@ + m@,
        SempkgError::Io(m) => "I/O error: "@ + m@,
        SempkgError::Json(m) => "JSON error: "@ + m@,
        SempkgError::TomlParse(m) => "TOML parse error: "@ + m@,
    }
}

impl SempkgError {
    /// What is said of the error.
    pub fn message(&self) -> (r: String)
        ensures
            r@ == error_text(*self),
    {
        match self {
            SempkgError::BundleNotFound { name, version } => {
                let mut r = "Bundle not found: ".to_owned();
                r.append(name.as_str());
                r.append("@");
                r.append(version.as_str());
                r
            },
            SempkgError::AlreadyInstalled { name, version } => {
                let mut r = "Bundle already installed: ".to_owned();
                r.append(name.as_str());
                r.append("@");
                r.append(version.as_str());
                r
            },
            SempkgError::ChecksumMismatch { path, expected, actual } => {
                let mut r = "Checksum mismatch for ".to_owned();
                r.append(path.as_str());
                r.append(": expected ");
                r.append(expected.as_str());
                r.append(", got ");
                r.append(actual.as_str());
                r
            },
            SempkgError::RegistryError { url, message } => {
                let mut r = "Registry error for ".to_owned();
                r.append(url.as_str());
                r.append(": ");
                r.append(message.as_str());
                r
            },
            SempkgError::NoLanceIndex(b) => {
                let mut r = "No LanceDB documentation index found in bundle '".to_owned();
                r.append(b.as_str());
                r.append("'");
                r
            },
            SempkgError::LanceError(m) => {
                let mut r = "LanceDB error: ".to_owned();
                r.append(m.as_str());
                r
            },
            SempkgError::Io(m) => {
                let mut r = "I/O error: ".to_owned();
                r.append(m.as_str());
                r
            },
            SempkgError::Json(m) => {
                let mut r = "JSON error: ".to_owned();
                r.append(m.as_str());
                r
            },
            SempkgError::TomlParse(m) => {
                let mut r = "TOML parse error: ".to_owned();
                r.append(m.as_str());
                r
            },
        }
    }
}

} // verus!
