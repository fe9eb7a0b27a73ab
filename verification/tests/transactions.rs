use cocoatly::codec::{FileEntry, TarGzCompressor};
use cocoatly::config::Config;
use cocoatly::error::CocoatlyError;
use cocoatly::hash::HashComputer;
use cocoatly::install::{InstallContext, InstallTransaction, PackageInstaller};
use cocoatly::state::GlobalState;
use cocoatly::statecodec::save_state_bytes;
use cocoatly::types::{HashAlgorithm, InstalledPackage, OperationStatus, PackageArtifact, PackageName, Version};
use cocoatly::uninstall::PackageUninstaller;
use cocoatly::update::PackageUpdater;
use cocoatly::verify_install::{repair_package, verify_installation};

fn sample_archive() -> (Vec<FileEntry>, Vec<u8>) {
    let entries = vec![
        FileEntry { path: "bin/foo".to_string(), data: b"#!/bin/foo".to_vec() },
        FileEntry { path: "share/readme".to_string(), data: b"hello".to_vec() },
    ];
    let packed = TarGzCompressor::pack(&entries);
    (entries, packed)
}

fn artifact(name: &str, version: Version, archive: &[u8]) -> PackageArtifact {
    PackageArtifact {
        package_id: 1,
        name: PackageName::new(name.to_string()),
        version,
        download_url: format!("https://example.invalid/{}", name),
        checksum: HashComputer::compute(archive, &HashAlgorithm::Sha256),
        checksum_algorithm: HashAlgorithm::Sha256,
        signature: None,
        size: archive.len() as u64,
    }
}

fn config() -> Config {
    Config::default_under("/tmp/cocoatly-test-home")
}

#[test]
fn install_with_correct_digest_records_the_package() {
    let (entries, packed) = sample_archive();
    let art = artifact("foo", Version::new(1, 0, 0), &packed);
    let mut state = GlobalState::new();
    let cfg = config();

    let mut txn = InstallTransaction::begin(&cfg, &state, &art).expect("fresh install begins");
    assert_eq!(txn.operation.status, OperationStatus::Downloading);
    assert!(txn.archive_path.ends_with("foo-1.0.0.tar.gz"));
    assert!(txn.install_path.ends_with("packages/foo/1.0.0"));

    let unpacked = txn.process_archive(&packed, &art, true, None).expect("digest matches");
    assert_eq!(txn.operation.status, OperationStatus::Installing);
    assert_eq!(unpacked.len(), entries.len());
    for (orig, back) in entries.iter().zip(unpacked.iter()) {
        assert_eq!(orig.path, back.path);
        assert_eq!(orig.data, back.data);
    }

    let files: Vec<String> =
        unpacked.iter().map(|e| format!("{}/{}", txn.install_path, e.path)).collect();
    let record = txn.commit(&mut state, &art, vec![], files.clone());

    assert_eq!(txn.operation.status, OperationStatus::Completed);
    assert_eq!(record.name.as_str(), "foo");
    assert_eq!(record.version, Version::new(1, 0, 0));
    assert_eq!(record.files, files);
    assert!(state.has_package(&art.name, &art.version));
    assert_eq!(state.list_packages().len(), 1);
    assert_eq!(state.metadata.total_packages, 1);
}

#[test]
fn second_install_of_same_version_fails_and_state_is_unchanged() {
    let (_entries, packed) = sample_archive();
    let art = artifact("foo", Version::new(1, 0, 0), &packed);
    let mut state = GlobalState::new();
    let cfg = config();

    let mut txn = InstallTransaction::begin(&cfg, &state, &art).unwrap();
    let unpacked = txn.process_archive(&packed, &art, true, None).unwrap();
    let files: Vec<String> =
        unpacked.iter().map(|e| format!("{}/{}", txn.install_path, e.path)).collect();
    txn.commit(&mut state, &art, vec![], files);

    let before = save_state_bytes(&state);
    match InstallTransaction::begin(&cfg, &state, &art) {
        Err(CocoatlyError::InstallationFailed(_)) => {}
        other => panic!("expected an already-installed failure, got {:?}", other),
    }
    let after = save_state_bytes(&state);
    assert_eq!(before, after);
}

#[test]
fn install_with_wrong_digest_fails_with_the_real_digest_and_no_record() {
    let (_entries, packed) = sample_archive();
    let mut art = artifact("foo", Version::new(1, 0, 0), &packed);
    let real = art.checksum.clone();
    art.checksum = HashComputer::compute(b"something else", &HashAlgorithm::Sha256);

    let mut state = GlobalState::new();
    let cfg = config();
    let before = save_state_bytes(&state);

    let mut txn = InstallTransaction::begin(&cfg, &state, &art).unwrap();
    match txn.process_archive(&packed, &art, true, None) {
        Err(CocoatlyError::HashMismatch { expected, actual }) => {
            assert_eq!(expected, art.checksum);
            assert_eq!(actual, real);
        }
        other => panic!("expected a hash mismatch, got {:?}", other),
    }
    assert_eq!(txn.operation.status, OperationStatus::Failed);
    assert!(!state.has_package(&art.name, &art.version));
    assert_eq!(save_state_bytes(&state), before);
}

#[test]
fn disabled_checksum_verification_skips_the_digest_gate() {
    let (_entries, packed) = sample_archive();
    let mut art = artifact("foo", Version::new(1, 0, 0), &packed);
    art.checksum = "not even hex".to_string();
    let state = GlobalState::new();
    let cfg = config();
    let mut txn = InstallTransaction::begin(&cfg, &state, &art).unwrap();
    assert!(txn.process_archive(&packed, &art, false, None).is_ok());
}

#[test]
fn installer_drives_the_same_pipeline() {
    let (_entries, packed) = sample_archive();
    let art = artifact("bar", Version::new(0, 1, 0), &packed);
    let cfg = config();
    let context = InstallContext::new(cfg, GlobalState::new());
    let mut installer = PackageInstaller::new(context);

    let mut txn = installer.begin(&art).unwrap();
    let unpacked = installer.process_archive(&mut txn, &packed, &art).unwrap();
    let files: Vec<String> =
        unpacked.iter().map(|e| format!("{}/{}", txn.install_path, e.path)).collect();
    let record = installer.commit(&mut txn, &art, vec![], files);
    assert_eq!(record.name.as_str(), "bar");
    assert!(installer.context.state.has_package(&art.name, &art.version));
}

#[test]
fn uninstall_of_missing_package_reports_package_not_found() {
    let uninstaller = PackageUninstaller::new(config(), GlobalState::new());
    match uninstaller.begin_uninstall(&PackageName::new("bar".to_string())) {
        Err(CocoatlyError::PackageNotFound(_)) => {}
        other => panic!("expected package-not-found, got {:?}", other),
    }
}

#[test]
fn uninstall_commits_by_removing_the_record() {
    let (_entries, packed) = sample_archive();
    let art = artifact("foo", Version::new(1, 0, 0), &packed);
    let mut state = GlobalState::new();
    let cfg = config();
    let mut txn = InstallTransaction::begin(&cfg, &state, &art).unwrap();
    let unpacked = txn.process_archive(&packed, &art, true, None).unwrap();
    let files: Vec<String> =
        unpacked.iter().map(|e| format!("{}/{}", txn.install_path, e.path)).collect();
    txn.commit(&mut state, &art, vec![], files);

    let mut uninstaller = PackageUninstaller::new(cfg, state);
    let record = uninstaller.begin_uninstall(&art.name).expect("installed package is found");
    assert_eq!(record.name.as_str(), "foo");
    let removed = uninstaller.commit_uninstall(&art.name);
    assert!(removed.is_some());
    assert!(!uninstaller.state.has_package(&art.name, &art.version));
    assert_eq!(uninstaller.state.metadata.total_packages, 0);
    assert!(uninstaller.force_uninstall(&art.name).is_none());
}

#[test]
fn update_to_an_older_version_is_refused_and_leaves_the_record() {
    let (_entries, packed) = sample_archive();
    let art_new = artifact("foo", Version::new(1, 0, 0), &packed);
    let mut state = GlobalState::new();
    let cfg = config();
    let mut txn = InstallTransaction::begin(&cfg, &state, &art_new).unwrap();
    let unpacked = txn.process_archive(&packed, &art_new, true, None).unwrap();
    let files: Vec<String> =
        unpacked.iter().map(|e| format!("{}/{}", txn.install_path, e.path)).collect();
    txn.commit(&mut state, &art_new, vec![], files);

    let before = save_state_bytes(&state);
    let updater = PackageUpdater::new(cfg, state);
    let downgrade = artifact("foo", Version::new(0, 9, 0), &packed);
    match updater.check_update(&downgrade.name, &downgrade) {
        Err(CocoatlyError::InstallationFailed(_)) => {}
        other => panic!("expected a version-conflict failure, got {:?}", other),
    }
    assert_eq!(save_state_bytes(&updater.state), before);
    assert!(updater.state.has_package(&downgrade.name, &Version::new(1, 0, 0)));

    // the same check passes for a strictly newer version
    let upgrade = artifact("foo", Version::new(1, 1, 0), &packed);
    let current = updater.check_update(&upgrade.name, &upgrade).expect("upgrade allowed");
    assert_eq!(current.version, Version::new(1, 0, 0));
}

#[test]
fn verify_reports_a_deleted_owned_file_as_missing() {
    let mut state = GlobalState::new();
    state.add_package(InstalledPackage {
        id: 9,
        name: PackageName::new("foo".to_string()),
        version: Version::new(1, 0, 0),
        install_path: "/opt/foo/1.0.0".to_string(),
        installed_at: 0,
        requested_by: vec![],
        files: vec!["/opt/foo/1.0.0/bin/foo".to_string(), "/opt/foo/1.0.0/share/doc".to_string()],
        checksum: "c".to_string(),
    });
    let name = PackageName::new("foo".to_string());

    // everything present: valid
    let present = vec![
        "/opt/foo/1.0.0/bin/foo".to_string(),
        "/opt/foo/1.0.0/share/doc".to_string(),
    ];
    let result = verify_installation(&state, &name, true, &present).unwrap();
    assert!(result.valid);
    assert!(result.missing_files.is_empty());
    assert!(repair_package(&state, &name, true, &present).is_ok());

    // one owned file deleted: invalid, and that file is reported missing
    let partial = vec!["/opt/foo/1.0.0/bin/foo".to_string()];
    let result = verify_installation(&state, &name, true, &partial).unwrap();
    assert!(!result.valid);
    assert_eq!(result.missing_files, vec!["/opt/foo/1.0.0/share/doc".to_string()]);
    assert!(result.corrupted_files.is_empty());
    match repair_package(&state, &name, true, &partial) {
        Err(CocoatlyError::VerificationFailed(_)) => {}
        other => panic!("expected a verification failure, got {:?}", other),
    }

    // the install path itself gone: everything is missing
    let result = verify_installation(&state, &name, false, &partial).unwrap();
    assert!(!result.valid);
    assert_eq!(result.missing_files.len(), 2);

    // verifying an unknown package is refused
    assert!(matches!(
        verify_installation(&state, &PackageName::new("nope".to_string()), true, &present),
        Err(CocoatlyError::PackageNotFound(_))
    ));
}

#[test]
fn failed_and_cancelled_transactions_record_their_end() {
    let (_entries, packed) = sample_archive();
    let art = artifact("foo", Version::new(1, 0, 0), &packed);
    let state = GlobalState::new();
    let cfg = config();

    let mut txn = InstallTransaction::begin(&cfg, &state, &art).unwrap();
    txn.fail("network unreachable".to_string());
    assert_eq!(txn.operation.status, OperationStatus::Failed);
    assert_eq!(txn.operation.error.as_deref(), Some("network unreachable"));

    let mut txn = InstallTransaction::begin(&cfg, &state, &art).unwrap();
    txn.cancel();
    assert_eq!(txn.operation.status, OperationStatus::Cancelled);
}
