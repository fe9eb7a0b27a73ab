//! Integrity checks of a downloaded artifact: always the digest, and —
//! when both a detached signature and a public key are supplied — an
//! Ed25519 signature over the hex digest text. Skipping the signature when
//! either piece is absent is deliberate: signing is opt-in here, and a
//! caller that requires it must enforce that one layer up.
use vstd::prelude::*;
use vstd::utf8::encode_utf8;
use crate::error::CocoatlyError;
use crate::hash::{spec_digest_hex, verify_hash, HashComputer};
use crate::hexcode::{hex_decode, spec_hex_decode};
use crate::signature::{ed25519_verifies, verify_signature};
use crate::strutil::contains_str;
use crate::types::{HashAlgorithm, PackageArtifact};

verus! {

/// Whether an artifact's optional signature, under an optional key, accepts
/// the digest text of the downloaded bytes. Absent signature or key means
/// the check is skipped, so it passes.
pub open spec fn spec_signature_ok(
    signature: Option<Seq<char>>,
    public_key: Option<Seq<u8>>,
    digest_hex: Seq<char>,
) -> bool {
    match (signature, public_key) {
        (Option::Some(sig_hex), Option::Some(pk)) => match spec_hex_decode(sig_hex) {
            Option::Some(sig) => ed25519_verifies(pk, encode_utf8(digest_hex), sig),
            Option::None => false,
        },
        _ => true,
    }
}

/// Checks an artifact's bytes against its expected digest.
pub fn verify_package_integrity(
    data: &[u8],
    expected_checksum: &str,
    algorithm: &HashAlgorithm,
) -> (r: Result<(), CocoatlyError>)
    ensures
        r is Ok <==> expected_checksum@ == spec_digest_hex(data@, *algorithm),
        r matches Err(e) ==> e matches CocoatlyError::HashMismatch { expected: ex, actual: act }
            && ex@ == expected_checksum@ && act@ == spec_digest_hex(data@, *algorithm),
{
    verify_hash(data, expected_checksum, algorithm)
}

/// Checks an artifact's bytes against its descriptor: the digest always,
/// and the detached signature when both it and a public key are present.
pub fn verify_artifact(data: &[u8], artifact: &PackageArtifact, public_key: Option<&[u8]>) -> (r:
    Result<(), CocoatlyError>)
    ensures
        r is Ok <==> (artifact.checksum@ == spec_digest_hex(data@, artifact.checksum_algorithm)
            && spec_signature_ok(
            artifact.signature.deep_view(),
            (match public_key {
                Option::Some(pk) => Some(pk@),
                Option::None => None,
            }),
            spec_digest_hex(data@, artifact.checksum_algorithm),
        )),
        r matches Err(e) ==> (e is HashMismatch || e is InvalidSignature),
        artifact.checksum@ != spec_digest_hex(data@, artifact.checksum_algorithm) ==> (r matches
        Err(e) && e matches CocoatlyError::HashMismatch { expected: ex, actual: act } && ex@
            == artifact.checksum@ && act@ == spec_digest_hex(data@, artifact.checksum_algorithm)),
{
    match verify_hash(data, artifact.checksum.as_str(), &artifact.checksum_algorithm) {
        Ok(()) => {},
        Err(e) => {
            return Err(e);
        },
    }
    match (&artifact.signature, public_key) {
        (Some(signature_hex), Some(pub_key)) => {
            let signature = match hex_decode(signature_hex.as_str()) {
                Some(s) => s,
                None => {
                    return Err(
                        CocoatlyError::InvalidSignature("Invalid signature format".to_owned()),
                    );
                },
            };
            let file_hash = HashComputer::compute(data, &artifact.checksum_algorithm);
            let message = file_hash.as_str().as_bytes();
            verify_signature(pub_key, message, signature.as_slice())
        },
        _ => Ok(()),
    }
}

/// Checks that a directory exists and that every expected file is among the
/// files actually present in it.
pub fn verify_directory_integrity(
    directory_exists: bool,
    present_files: &Vec<String>,
    expected_files: &Vec<String>,
) -> (r: Result<(), CocoatlyError>)
    ensures
        r is Ok <==> (directory_exists && (forall|i: int|
            0 <= i < expected_files.deep_view().len() ==> contains_str(
                present_files.deep_view(),
                #[trigger] expected_files.deep_view()[i],
            ))),
        r matches Err(e) ==> e is VerificationFailed,
{
    if !directory_exists {
        return Err(CocoatlyError::VerificationFailed("Directory does not exist".to_owned()));
    }
    let n = expected_files.len();
    let mut i: usize = 0;
    while i < n
        invariant
            i <= n == expected_files.deep_view().len(),
            forall|j: int|
                0 <= j < i ==> contains_str(
                    present_files.deep_view(),
                    #[trigger] expected_files.deep_view()[j],
                ),
        decreases n - i,
    {
        if !contains_string(present_files, expected_files[i].as_str()) {
            proof {
                assert(expected_files.deep_view()[i as int] == expected_files@[i as int]@);
            }
            return Err(CocoatlyError::VerificationFailed("Expected file not found".to_owned()));
        }
        i += 1;
    }
    Ok(())
}

/// Whether the list holds a string equal to `x`.
pub fn contains_string(ss: &Vec<String>, x: &str) -> (r: bool)
    ensures
        r == contains_str(ss.deep_view(), x@),
{
    let n = ss.len();
    let mut i: usize = 0;
    while i < n
        invariant
            i <= n == ss.deep_view().len(),
            forall|j: int| 0 <= j < i ==> ss.deep_view()[j] != x@,
        decreases n - i,
    {
        if crate::strutil::str_eq(ss[i].as_str(), x) {
            proof {
                assert(ss.deep_view()[i as int] == x@);
            }
            return true;
        }
        i += 1;
    }
    false
}

} // verus!
