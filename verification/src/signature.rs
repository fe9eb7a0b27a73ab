//! Detached Ed25519 signatures over artifact digests, checked through ring.
use vstd::prelude::*;
use crate::error::CocoatlyError;

verus! {

/// Whether ring's Ed25519 verification accepts the signature over the
/// message under the public key: a function of the three byte strings.
pub uninterp spec fn ed25519_verifies(pk: Seq<u8>, msg: Seq<u8>, sig: Seq<u8>) -> bool;

/// The Ed25519 signature ring produces for a PKCS#8 key document and a
/// message, where the document parses; Ed25519 signing is deterministic, so
/// it is a function of the two byte strings.
pub uninterp spec fn ed25519_signature_of(key: Seq<u8>, msg: Seq<u8>) -> Option<Seq<u8>>;

/// Relies on ring's `UnparsedPublicKey::verify` with `ED25519`: acceptance
/// depends only on the key, message and signature bytes.
#[verifier::external_body]
fn ed25519_verify_raw(public_key: &[u8], message: &[u8], signature: &[u8]) -> (r: bool)
    ensures
        r == ed25519_verifies(public_key@, message@, signature@),
{
    ring::signature::UnparsedPublicKey::new(&ring::signature::ED25519, public_key).verify(
        message,
        signature,
    ).is_ok()
}

/// Relies on ring's `Ed25519KeyPair::from_pkcs8` and `sign`: parsing
/// succeeds on exactly the well-formed key documents, and the produced
/// signature is a deterministic function of key and message.
#[verifier::external_body]
fn ed25519_sign_raw(private_key: &[u8], data: &[u8]) -> (r: Option<Vec<u8>>)
    ensures
        match r {
            Some(s) => ed25519_signature_of(private_key@, data@) == Some(s@),
            None => ed25519_signature_of(private_key@, data@) is None,
        },
{
    match ring::signature::Ed25519KeyPair::from_pkcs8(private_key) {
        Ok(kp) => Some(kp.sign(data).as_ref().to_vec()),
        Err(_) => None,
    }
}

pub struct SignatureVerifier;

impl SignatureVerifier {
    /// Checks a detached Ed25519 signature.
    pub fn verify_ed25519(public_key: &[u8], message: &[u8], signature: &[u8]) -> (r: Result<
        (),
        CocoatlyError,
    >)
        ensures
            r is Ok <==> ed25519_verifies(public_key@, message@, signature@),
            r matches Err(e) ==> e is InvalidSignature,
    {
        if ed25519_verify_raw(public_key, message, signature) {
            Ok(())
        } else {
            Err(
                CocoatlyError::InvalidSignature(
                    "Ed25519 signature verification failed".to_owned(),
                ),
            )
        }
    }
}

/// Checks a detached Ed25519 signature.
pub fn verify_signature(public_key: &[u8], data: &[u8], signature: &[u8]) -> (r: Result<
    (),
    CocoatlyError,
>)
    ensures
        r is Ok <==> ed25519_verifies(public_key@, data@, signature@),
        r matches Err(e) ==> e is InvalidSignature,
{
    SignatureVerifier::verify_ed25519(public_key, data, signature)
}

/// Signs data with an Ed25519 key given as a PKCS#8 document.
pub fn sign_data(private_key: &[u8], data: &[u8]) -> (r: Result<Vec<u8>, CocoatlyError>)
    ensures
        r matches Ok(s) ==> ed25519_signature_of(private_key@, data@) == Some(s@),
        r is Ok <==> ed25519_signature_of(private_key@, data@) is Some,
        r matches Err(e) ==> e is InvalidSignature,
{
    match ed25519_sign_raw(private_key, data) {
        Some(s) => Ok(s),
        None => Err(CocoatlyError::InvalidSignature("Invalid private key format".to_owned())),
    }
}

} // verus!
