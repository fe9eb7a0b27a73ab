use cocoatly::codec::{is_safe_rel_path, FileEntry, TarGzCompressor};
use cocoatly::error::CocoatlyError;

fn entry(path: &str, data: &[u8]) -> FileEntry {
    FileEntry { path: path.to_string(), data: data.to_vec() }
}

#[test]
fn pack_unpack_roundtrip_reproduces_paths_and_contents() {
    let entries = vec![
        entry("a.txt", b"alpha"),
        entry("dir/b.bin", &[0u8, 1, 2, 255, 254]),
        entry("dir/sub/c", b""),
    ];
    let packed = TarGzCompressor::pack(&entries);
    let unpacked = TarGzCompressor::unpack(&packed).expect("round trip must succeed");
    assert_eq!(unpacked.len(), entries.len());
    for (orig, back) in entries.iter().zip(unpacked.iter()) {
        assert_eq!(orig.path, back.path);
        assert_eq!(orig.data, back.data);
    }
}

#[test]
fn pack_unpack_roundtrip_empty_archive() {
    let entries: Vec<FileEntry> = vec![];
    let packed = TarGzCompressor::pack(&entries);
    let unpacked = TarGzCompressor::unpack(&packed).expect("empty archive unpacks");
    assert_eq!(unpacked.len(), 0);
}

#[test]
fn unpack_rejects_parent_traversal_entry() {
    let entries = vec![entry("../escape.txt", b"evil")];
    let packed = TarGzCompressor::pack(&entries);
    match TarGzCompressor::unpack(&packed) {
        Err(CocoatlyError::VerificationFailed(_)) => {}
        other => panic!("expected a verification failure, got {:?}", other),
    }
}

#[test]
fn unpack_rejects_absolute_path_entry() {
    let entries = vec![entry("/etc/passwd", b"evil")];
    let packed = TarGzCompressor::pack(&entries);
    match TarGzCompressor::unpack(&packed) {
        Err(CocoatlyError::VerificationFailed(_)) => {}
        other => panic!("expected a verification failure, got {:?}", other),
    }
}

#[test]
fn unpack_rejects_hidden_traversal_entry() {
    let entries = vec![entry("ok.txt", b"fine"), entry("dir/../../escape", b"evil")];
    let packed = TarGzCompressor::pack(&entries);
    assert!(TarGzCompressor::unpack(&packed).is_err());
}

#[test]
fn unpack_rejects_garbage_stream() {
    match TarGzCompressor::unpack(b"this is not gzip at all") {
        Err(CocoatlyError::SerializationError(_)) => {}
        other => panic!("expected a serialization failure, got {:?}", other),
    }
}

#[test]
fn unpack_rejects_truncated_stream() {
    let entries = vec![entry("a.txt", b"some contents that compress")];
    let packed = TarGzCompressor::pack(&entries);
    let cut = &packed[..packed.len() - 3];
    assert!(TarGzCompressor::unpack(cut).is_err());
}

#[test]
fn list_contents_names_every_entry() {
    let entries = vec![entry("x/one", b"1"), entry("two", b"2")];
    let packed = TarGzCompressor::pack(&entries);
    let names = TarGzCompressor::list_contents(&packed).expect("listing succeeds");
    assert_eq!(names, vec!["x/one".to_string(), "two".to_string()]);
}

#[test]
fn safe_path_judgements() {
    assert!(is_safe_rel_path("a/b/c.txt"));
    assert!(is_safe_rel_path("plain.txt"));
    assert!(!is_safe_rel_path(""));
    assert!(!is_safe_rel_path("/abs"));
    assert!(!is_safe_rel_path("a//b"));
    assert!(!is_safe_rel_path("a/b/"));
    assert!(!is_safe_rel_path(".."));
    assert!(!is_safe_rel_path("../x"));
    assert!(!is_safe_rel_path("a/../b"));
    assert!(!is_safe_rel_path("./a"));
    assert!(!is_safe_rel_path("a/./b"));
    assert!(is_safe_rel_path("..hidden"));
    assert!(is_safe_rel_path("a/..b/c"));
}
