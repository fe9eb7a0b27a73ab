use vstd::prelude::*;

verus! {

/// `prefix` followed by `detail`.
fn describe(prefix: &str, detail: &str) -> (r: String)
    ensures
        r@ == prefix@ + detail@,
{
    let mut s = prefix.to_owned();
    s.append(detail);
    s
}

/// The error taxonomy of the engine. Errors carry human-readable detail as
/// plain strings; `HashMismatch` additionally records both the expected and
/// the actually computed digest so integrity failures are fully reportable.
#[derive(Debug, Clone, PartialEq, Eq)]
pub enum CocoatlyError {
    IoError(String),
    SerializationError(String),
    PackageNotFound(String),
    VersionConflict(String),
    InvalidManifest(String),
    DownloadFailed(String),
    VerificationFailed(String),
    InstallationFailed(String),
    DependencyResolutionFailed(String),
    InvalidSignature(String),
    HashMismatch { expected: String, actual: String },
    PermissionDenied(String),
    ConfigError(String),
    StateError(String),
    RegistryError(String),
}

impl CocoatlyError {
    /// A human-readable account of the error: its category, then its detail.
    pub fn message(&self) -> (r: String) {
        match self {
            CocoatlyError::IoError(m) => describe("IO error: ", m.as_str()),
            CocoatlyError::SerializationError(m) => describe(
                "Serialization error: ",
                m.as_str(),
            ),
            CocoatlyError::PackageNotFound(m) => describe("Package not found: ", m.as_str()),
            CocoatlyError::VersionConflict(m) => describe("Version conflict: ", m.as_str()),
            CocoatlyError::InvalidManifest(m) => describe("Invalid manifest: ", m.as_str()),
            CocoatlyError::DownloadFailed(m) => describe("Download failed: ", m.as_str()),
            CocoatlyError::VerificationFailed(m) => describe(
                "Verification failed: ",
                m.as_str(),
            ),
            CocoatlyError::InstallationFailed(m) => describe(
                "Installation failed: ",
                m.as_str(),
            ),
            CocoatlyError::DependencyResolutionFailed(m) => describe(
                "Dependency resolution failed: ",
                m.as_str(),
            ),
            CocoatlyError::InvalidSignature(m) => describe("Invalid signature: ", m.as_str()),
            CocoatlyError::HashMismatch { expected, actual } => {
                let mut s = describe("Hash mismatch: expected ", expected.as_str());
                s.append(", got ");
                s.append(actual.as_str());
                s
            },
            CocoatlyError::PermissionDenied(m) => describe("Permission denied: ", m.as_str()),
            CocoatlyError::ConfigError(m) => describe("Configuration error: ", m.as_str()),
            CocoatlyError::StateError(m) => describe("State error: ", m.as_str()),
            CocoatlyError::RegistryError(m) => describe("Registry error: ", m.as_str()),
        }
    }
}

} // verus!
