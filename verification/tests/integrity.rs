use cocoatly::error::CocoatlyError;
use cocoatly::hash::{verify_hash, verify_stream_hash, HashComputer};
use cocoatly::hexcode::{hex_decode, hex_encode};
use cocoatly::signature::{sign_data, verify_signature, SignatureVerifier};
use cocoatly::types::{HashAlgorithm, PackageArtifact, PackageName, Version};
use cocoatly::verify::{verify_artifact, verify_directory_integrity, verify_package_integrity};

#[test]
fn sha256_known_answer() {
    let digest = HashComputer::compute(b"abc", &HashAlgorithm::Sha256);
    assert_eq!(digest, "ba7816bf8f01cfea414140de5dae2223b00361a396177a9cb410ff61f20015ad");
}

#[test]
fn sha512_known_answer() {
    let digest = HashComputer::compute(b"abc", &HashAlgorithm::Sha512);
    assert_eq!(
        digest,
        "ddaf35a193617abacc417349ae20413112e6fa4e89a97ea20a9eeee64b55d39a2192992a274fc1a836ba3c23a3feebbd454d4423643ce80e2a9ac94fa54ca49f"
    );
}

#[test]
fn blake3_matches_reference_implementation() {
    let digest = HashComputer::compute(b"abc", &HashAlgorithm::Blake3);
    let expected = blake3::hash(b"abc").to_hex().to_string();
    assert_eq!(digest, expected);
}

#[test]
fn compute_stream_equals_compute_on_concatenation() {
    let chunks = vec![b"hello ".to_vec(), b"wor".to_vec(), Vec::new(), b"ld".to_vec()];
    let streamed = HashComputer::compute_stream(&chunks, &HashAlgorithm::Sha256);
    let whole = HashComputer::compute(b"hello world", &HashAlgorithm::Sha256);
    assert_eq!(streamed, whole);
}

#[test]
fn verify_hash_accepts_the_true_digest() {
    let digest = HashComputer::compute(b"payload", &HashAlgorithm::Blake3);
    assert!(verify_hash(b"payload", &digest, &HashAlgorithm::Blake3).is_ok());
    assert!(verify_stream_hash(&vec![b"payload".to_vec()], &digest, &HashAlgorithm::Blake3).is_ok());
}

#[test]
fn verify_hash_reports_the_actual_digest_on_any_corruption() {
    let data = b"payload";
    let good = HashComputer::compute(data, &HashAlgorithm::Sha256);
    // flip each byte of the expected digest in turn; every corruption must
    // be caught and report the truly computed digest as `actual`
    for i in 0..good.len() {
        let mut bad = good.clone().into_bytes();
        bad[i] = if bad[i] == b'0' { b'1' } else { b'0' };
        let bad = String::from_utf8(bad).unwrap();
        if bad == good {
            continue;
        }
        match verify_hash(data, &bad, &HashAlgorithm::Sha256) {
            Err(CocoatlyError::HashMismatch { expected, actual }) => {
                assert_eq!(expected, bad);
                assert_eq!(actual, good);
            }
            other => panic!("expected a hash mismatch, got {:?}", other),
        }
    }
}

#[test]
fn hex_roundtrip_and_rejections() {
    let bytes = vec![0u8, 1, 0x7f, 0x80, 0xff, 0xab];
    let text = hex_encode(&bytes);
    assert_eq!(text, "00017f80ffab");
    assert_eq!(hex_decode(&text).unwrap(), bytes);
    assert_eq!(hex_decode("ABCDEF").unwrap(), vec![0xab, 0xcd, 0xef]);
    assert!(hex_decode("abc").is_none());
    assert!(hex_decode("zz").is_none());
    assert_eq!(hex_decode("").unwrap(), Vec::<u8>::new());
}

fn artifact_for(data: &[u8], algorithm: HashAlgorithm, signature: Option<String>) -> PackageArtifact {
    PackageArtifact {
        package_id: 7,
        name: PackageName::new("foo".to_string()),
        version: Version::new(1, 0, 0),
        download_url: "https://example.invalid/foo".to_string(),
        checksum: HashComputer::compute(data, &algorithm),
        checksum_algorithm: algorithm,
        signature,
        size: data.len() as u64,
    }
}

#[test]
fn verify_artifact_checks_digest_and_skips_absent_signature() {
    let data = b"artifact bytes";
    let artifact = artifact_for(data, HashAlgorithm::Sha256, None);
    assert!(verify_artifact(data, &artifact, None).is_ok());
    assert!(verify_package_integrity(data, &artifact.checksum, &HashAlgorithm::Sha256).is_ok());
    let mut wrong = artifact.clone();
    wrong.checksum = HashComputer::compute(b"other", &HashAlgorithm::Sha256);
    assert!(matches!(
        verify_artifact(data, &wrong, None),
        Err(CocoatlyError::HashMismatch { .. })
    ));
}

#[test]
fn ed25519_sign_verify_roundtrip() {
    let rng = ring::rand::SystemRandom::new();
    let pkcs8 = ring::signature::Ed25519KeyPair::generate_pkcs8(&rng).unwrap();
    let key_pair = ring::signature::Ed25519KeyPair::from_pkcs8(pkcs8.as_ref()).unwrap();
    let public_key = ring::signature::KeyPair::public_key(&key_pair).as_ref().to_vec();

    let message = b"digest-text-to-sign";
    let signature = sign_data(pkcs8.as_ref(), message).expect("signing succeeds");
    assert!(verify_signature(&public_key, message, &signature).is_ok());
    assert!(SignatureVerifier::verify_ed25519(&public_key, message, &signature).is_ok());

    let mut tampered = signature.clone();
    tampered[0] ^= 1;
    assert!(matches!(
        verify_signature(&public_key, message, &tampered),
        Err(CocoatlyError::InvalidSignature(_))
    ));
    assert!(matches!(
        sign_data(b"not a pkcs8 document", message),
        Err(CocoatlyError::InvalidSignature(_))
    ));
}

#[test]
fn verify_artifact_checks_supplied_signature() {
    let rng = ring::rand::SystemRandom::new();
    let pkcs8 = ring::signature::Ed25519KeyPair::generate_pkcs8(&rng).unwrap();
    let key_pair = ring::signature::Ed25519KeyPair::from_pkcs8(pkcs8.as_ref()).unwrap();
    let public_key = ring::signature::KeyPair::public_key(&key_pair).as_ref().to_vec();

    let data = b"signed artifact";
    let digest = HashComputer::compute(data, &HashAlgorithm::Sha256);
    let signature = sign_data(pkcs8.as_ref(), digest.as_bytes()).unwrap();
    let signature_hex = hex_encode(&signature);

    let artifact = artifact_for(data, HashAlgorithm::Sha256, Some(signature_hex));
    assert!(verify_artifact(data, &artifact, Some(&public_key)).is_ok());

    let bad_sig = artifact_for(data, HashAlgorithm::Sha256, Some("zz".to_string()));
    assert!(matches!(
        verify_artifact(data, &bad_sig, Some(&public_key)),
        Err(CocoatlyError::InvalidSignature(_))
    ));
}

#[test]
fn directory_integrity_requires_every_expected_file() {
    let present = vec!["a".to_string(), "b".to_string()];
    let expected = vec!["a".to_string()];
    assert!(verify_directory_integrity(true, &present, &expected).is_ok());
    let expected_more = vec!["a".to_string(), "c".to_string()];
    assert!(matches!(
        verify_directory_integrity(true, &present, &expected_more),
        Err(CocoatlyError::VerificationFailed(_))
    ));
    assert!(matches!(
        verify_directory_integrity(false, &present, &expected),
        Err(CocoatlyError::VerificationFailed(_))
    ));
}
