//! Digests of artifact bytes under a named algorithm, rendered as lowercase
//! hex text, and the comparison of a computed digest against an expected
//! one.
use vstd::prelude::*;
use crate::error::CocoatlyError;
use crate::hexcode::{hex_chars_of, hex_encode};
use crate::strutil::str_eq;
use crate::types::HashAlgorithm;

verus! {

/// What blake3's `hash` returns for a byte stream: a function of the bytes
/// alone.
pub uninterp spec fn blake3_of(b: Seq<u8>) -> Seq<u8>;

/// What sha2's `Sha256::digest` returns for a byte stream: a function of the
/// bytes alone.
pub uninterp spec fn sha256_of(b: Seq<u8>) -> Seq<u8>;

/// What sha2's `Sha512::digest` returns for a byte stream: a function of the
/// bytes alone.
pub uninterp spec fn sha512_of(b: Seq<u8>) -> Seq<u8>;

/// Relies on blake3's `hash`: a 32-byte digest of the input bytes.
#[verifier::external_body]
fn blake3_digest(data: &[u8]) -> (r: Vec<u8>)
    ensures
        r@ == blake3_of(data@),
        r@.len() == 32,
{
    blake3::hash(data).as_bytes().to_vec()
}

/// Relies on sha2's `Sha256::digest`: a 32-byte digest of the input bytes.
#[verifier::external_body]
fn sha256_digest(data: &[u8]) -> (r: Vec<u8>)
    ensures
        r@ == sha256_of(data@),
        r@.len() == 32,
{
    <sha2::Sha256 as sha2::Digest>::digest(data).to_vec()
}

/// Relies on sha2's `Sha512::digest`: a 64-byte digest of the input bytes.
#[verifier::external_body]
fn sha512_digest(data: &[u8]) -> (r: Vec<u8>)
    ensures
        r@ == sha512_of(data@),
        r@.len() == 64,
{
    <sha2::Sha512 as sha2::Digest>::digest(data).to_vec()
}

/// The digest of a byte stream under an algorithm.
pub open spec fn spec_digest(b: Seq<u8>, alg: HashAlgorithm) -> Seq<u8> {
    match alg {
        HashAlgorithm::Blake3 => blake3_of(b),
        HashAlgorithm::Sha256 => sha256_of(b),
        HashAlgorithm::Sha512 => sha512_of(b),
    }
}

/// The digest of a byte stream, as lowercase hex text.
pub open spec fn spec_digest_hex(b: Seq<u8>, alg: HashAlgorithm) -> Seq<char> {
    hex_chars_of(spec_digest(b, alg))
}

/// The concatenation of a list of chunks.
pub open spec fn concat_chunks(cs: Seq<Seq<u8>>) -> Seq<u8>
    decreases cs.len(),
{
    if cs.len() == 0 {
        Seq::empty()
    } else {
        concat_chunks(cs.take(cs.len() - 1)) + cs.last()
    }
}

pub struct HashComputer;

impl HashComputer {
    /// The hex digest of a byte stream held in memory.
    pub fn compute(data: &[u8], algorithm: &HashAlgorithm) -> (r: String)
        ensures
            r@ == spec_digest_hex(data@, *algorithm),
    {
        let digest = match algorithm {
            HashAlgorithm::Blake3 => blake3_digest(data),
            HashAlgorithm::Sha256 => sha256_digest(data),
            HashAlgorithm::Sha512 => sha512_digest(data),
        };
        hex_encode(digest.as_slice())
    }

    /// The hex digest of a stream read in chunks: the digest of the chunks'
    /// concatenation.
    pub fn compute_stream(chunks: &Vec<Vec<u8>>, algorithm: &HashAlgorithm) -> (r: String)
        ensures
            r@ == spec_digest_hex(concat_chunks(chunks.deep_view()), *algorithm),
    {
        let mut buf: Vec<u8> = Vec::new();
        let n = chunks.len();
        let mut i: usize = 0;
        while i < n
            invariant
                i <= n == chunks@.len(),
                buf@ == concat_chunks(chunks.deep_view().take(i as int)),
            decreases n - i,
        {
            let ghost pre = chunks.deep_view().take(i as int);
            buf.extend_from_slice(chunks[i].as_slice());
            proof {
                assert(chunks.deep_view().take(i + 1).take(i as int) =~= pre);
                assert(chunks.deep_view().take(i + 1).last() == chunks.deep_view()[i as int]);
                assert(buf@ =~= concat_chunks(pre) + chunks.deep_view()[i as int]);
            }
            i += 1;
        }
        proof {
            assert(chunks.deep_view().take(n as int) =~= chunks.deep_view());
        }
        HashComputer::compute(buf.as_slice(), algorithm)
    }
}

/// Checks bytes against an expected hex digest; on mismatch, the error
/// carries both the expected text and the actually computed digest.
pub fn verify_hash(data: &[u8], expected: &str, algorithm: &HashAlgorithm) -> (r: Result<
    (),
    CocoatlyError,
>)
    ensures
        r is Ok <==> expected@ == spec_digest_hex(data@, *algorithm),
        r matches Err(e) ==> e matches CocoatlyError::HashMismatch { expected: ex, actual: act }
            && ex@ == expected@ && act@ == spec_digest_hex(data@, *algorithm),
{
    let computed = HashComputer::compute(data, algorithm);
    if str_eq(computed.as_str(), expected) {
        Ok(())
    } else {
        Err(CocoatlyError::HashMismatch { expected: expected.to_owned(), actual: computed })
    }
}

/// Checks a stream read in chunks against an expected hex digest.
pub fn verify_stream_hash(chunks: &Vec<Vec<u8>>, expected: &str, algorithm: &HashAlgorithm) -> (r:
    Result<(), CocoatlyError>)
    ensures
        r is Ok <==> expected@ == spec_digest_hex(concat_chunks(chunks.deep_view()), *algorithm),
        r matches Err(e) ==> e matches CocoatlyError::HashMismatch { expected: ex, actual: act }
            && ex@ == expected@ && act@ == spec_digest_hex(
            concat_chunks(chunks.deep_view()),
            *algorithm,
        ),
{
    let computed = HashComputer::compute_stream(chunks, algorithm);
    if str_eq(computed.as_str(), expected) {
        Ok(())
    } else {
        Err(CocoatlyError::HashMismatch { expected: expected.to_owned(), actual: computed })
    }
}

} // verus!
