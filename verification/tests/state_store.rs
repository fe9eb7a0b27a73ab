use cocoatly::state::{GlobalState, StateMetadata};
use cocoatly::statecodec::{load_state_bytes, save_state_bytes};
use cocoatly::types::{InstalledPackage, PackageName, Version};

fn record(name: &str, version: Version) -> InstalledPackage {
    InstalledPackage {
        id: 42,
        name: PackageName::new(name.to_string()),
        version,
        install_path: format!("/opt/pkgs/{}", name),
        installed_at: 1_700_000_000,
        requested_by: vec![PackageName::new("root".to_string())],
        files: vec![format!("/opt/pkgs/{}/bin/run", name)],
        checksum: "cafe".to_string(),
    }
}

#[test]
fn count_matches_records_after_every_mutation() {
    let mut state = GlobalState::new();
    assert_eq!(state.metadata.total_packages, 0);

    state.add_package(record("a", Version::new(1, 0, 0)));
    assert_eq!(state.metadata.total_packages, state.installed_packages.len());
    assert_eq!(state.metadata.total_packages, 1);

    state.add_package(record("b", Version::new(2, 0, 0)));
    assert_eq!(state.metadata.total_packages, 2);

    // re-adding the same name replaces, never duplicates
    state.add_package(record("a", Version::new(1, 1, 0)));
    assert_eq!(state.metadata.total_packages, 2);

    state.remove_package(&PackageName::new("a".to_string()));
    assert_eq!(state.metadata.total_packages, state.installed_packages.len());
    assert_eq!(state.metadata.total_packages, 1);

    // removing an absent name changes nothing
    state.remove_package(&PackageName::new("zzz".to_string()));
    assert_eq!(state.metadata.total_packages, 1);

    state.update_metadata(12345);
    assert_eq!(state.metadata.total_packages, 1);
    assert_eq!(state.metadata.total_size_bytes, 12345);
}

#[test]
fn get_has_and_list() {
    let mut state = GlobalState::new();
    let a = PackageName::new("a".to_string());
    state.add_package(record("a", Version::new(1, 2, 3)));

    let got = state.get_package(&a).expect("a is installed");
    assert_eq!(got.version, Version::new(1, 2, 3));
    assert!(state.has_package(&a, &Version::new(1, 2, 3)));
    assert!(!state.has_package(&a, &Version::new(1, 2, 4)));
    assert!(state.get_package(&PackageName::new("b".to_string())).is_none());
    assert_eq!(state.list_packages().len(), 1);
}

#[test]
fn replacing_keeps_the_new_record() {
    let mut state = GlobalState::new();
    let a = PackageName::new("a".to_string());
    state.add_package(record("a", Version::new(1, 0, 0)));
    state.add_package(record("a", Version::new(2, 0, 0)));
    assert!(state.has_package(&a, &Version::new(2, 0, 0)));
    assert!(!state.has_package(&a, &Version::new(1, 0, 0)));
}

#[test]
fn save_then_load_reproduces_the_store() {
    let mut state = GlobalState::new();
    state.add_package(record("alpha", Version::new(1, 0, 0)));
    state.add_package(record("beta", Version::new(0, 9, 7)));
    state.pending_operations.push("install:gamma".to_string());
    state.metadata.last_cleanup = Some(1_650_000_000);
    state.metadata.corrupted_packages.push("delta".to_string());
    state.update_metadata(777);

    let bytes = save_state_bytes(&state);
    let loaded = load_state_bytes(&bytes).expect("a saved document loads");

    assert_eq!(loaded.version, state.version);
    assert_eq!(loaded.last_updated, state.last_updated);
    assert_eq!(loaded.installed_packages.len(), 2);
    assert_eq!(loaded.installed_packages[0].name.as_str(), "alpha");
    assert_eq!(loaded.installed_packages[1].name.as_str(), "beta");
    assert_eq!(loaded.installed_packages[1].version, Version::new(0, 9, 7));
    assert_eq!(loaded.pending_operations, vec!["install:gamma".to_string()]);
    assert_eq!(loaded.metadata.total_packages, 2);
    assert_eq!(loaded.metadata.total_size_bytes, 777);
    assert_eq!(loaded.metadata.last_cleanup, Some(1_650_000_000));
    assert_eq!(loaded.metadata.corrupted_packages, vec!["delta".to_string()]);
}

#[test]
fn load_then_save_is_byte_identical() {
    let mut state = GlobalState::new();
    state.add_package(record("alpha", Version::new(3, 1, 4)));
    let bytes = save_state_bytes(&state);
    let loaded = load_state_bytes(&bytes).expect("loads");
    let again = save_state_bytes(&loaded);
    assert_eq!(bytes, again);
}

#[test]
fn load_rejects_garbage_and_inconsistent_documents() {
    assert!(load_state_bytes(b"nonsense").is_none());
    assert!(load_state_bytes(b"").is_none());

    // trailing bytes after a valid document are refused
    let state = GlobalState::new();
    let mut bytes = save_state_bytes(&state);
    bytes.push(0);
    assert!(load_state_bytes(&bytes).is_none());

    // a cached count that disagrees with the record list is refused
    let broken = GlobalState {
        version: "1.0.0".to_string(),
        last_updated: 0,
        installed_packages: vec![record("a", Version::new(1, 0, 0))],
        pending_operations: vec![],
        metadata: StateMetadata {
            total_packages: 5,
            total_size_bytes: 0,
            last_cleanup: None,
            corrupted_packages: vec![],
        },
    };
    let bytes = save_state_bytes(&broken);
    assert!(load_state_bytes(&bytes).is_none());

    // duplicate names are refused
    let dup = GlobalState {
        version: "1.0.0".to_string(),
        last_updated: 0,
        installed_packages: vec![
            record("a", Version::new(1, 0, 0)),
            record("a", Version::new(2, 0, 0)),
        ],
        pending_operations: vec![],
        metadata: StateMetadata {
            total_packages: 2,
            total_size_bytes: 0,
            last_cleanup: None,
            corrupted_packages: vec![],
        },
    };
    let bytes = save_state_bytes(&dup);
    assert!(load_state_bytes(&bytes).is_none());
}

#[test]
fn default_is_a_fresh_store() {
    let state = GlobalState::default();
    assert_eq!(state.installed_packages.len(), 0);
    assert_eq!(state.metadata.total_packages, 0);
    assert_eq!(state.version, "1.0.0");
}
