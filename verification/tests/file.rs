//! Catalog, cache and chunk-reader tests, including the transport
//! encoding round trip.

use base64::Engine;

use cs::file::{
    decode_chunk, get_file_list, locate_by_hash, read_data, FileService, ProvideFile, SourceDir,
    SourceFile, CASH_TIMEOUT_SECS,
};
use cs::test_utils::setting_up_test_file_tree;

#[test]
fn u8_to_string() {
    let b = b"asdf\xF0";
    let s = base64::engine::general_purpose::STANDARD.encode(b);
    println!("result: {s}");

    let bb = base64::engine::general_purpose::STANDARD.decode(s).unwrap();

    for i in [0..b.len()] {
        assert_eq!(bb[i.clone()], b[i]);
    }
}

fn small_share() -> SourceDir {
    SourceDir {
        name: "share".to_string(),
        path: "share".to_string(),
        files: vec![
            SourceFile {
                name: "a.bin".to_string(),
                path: "share/a.bin".to_string(),
                data: vec![1, 2, 3, 4, 5, 6, 7, 8],
            },
            SourceFile {
                name: "b.bin".to_string(),
                path: "share/b.bin".to_string(),
                data: b"hello".to_vec(),
            },
        ],
        dirs: vec![SourceDir {
            name: "sub".to_string(),
            path: "share/sub".to_string(),
            files: vec![SourceFile {
                name: "c.bin".to_string(),
                path: "share/sub/c.bin".to_string(),
                data: vec![9, 9, 9],
            }],
            dirs: vec![],
        }],
    }
}

#[test]
fn tree_hashes_match_independent_digest() {
    // every file's hash in the tree equals an independently computed
    // content hash of that exact file
    let share = small_share();
    let svc = FileService::new("share".to_string());
    let root = svc.get_tree(&share).unwrap();

    assert_eq!(root.name, "root");
    assert_eq!(root.files.len(), 2);
    assert_eq!(root.dirs.len(), 1);

    assert_eq!(root.files[0].hash, sha256::digest(&share.files[0].data));
    assert_eq!(root.files[0].size, 8);
    assert_eq!(root.files[1].hash, sha256::digest(&share.files[1].data));
    // the well-known digest of b"hello"
    assert_eq!(
        root.files[1].hash,
        "2cf24dba5fb0a30e26e83b2ac5b9e29e1b161e5c1fa7425e73043362938b9824"
    );
    assert_eq!(
        root.dirs[0].files[0].hash,
        sha256::digest(&share.dirs[0].files[0].data)
    );
}

#[test]
fn generated_share_has_expected_shape() {
    let share = setting_up_test_file_tree("data-test".to_string());
    assert_eq!(share.files.len(), 3);
    assert_eq!(share.files[0].name, "A.txt");
    assert_eq!(share.files[0].data.len(), 500000);
    assert_eq!(share.dirs.len(), 1);
    assert_eq!(share.dirs[0].name, "dir1");
    assert_eq!(share.dirs[0].files.len(), 3);
}

#[test]
fn read_data_clamps_and_flags() {
    let contents: Vec<u8> = (0u8..=99).collect();

    // a strict sub-range: end kept, not the last chunk
    let d = read_data(&contents, 10, 20).unwrap();
    assert_eq!(d.end, 20);
    assert!(!d.last_data);
    assert_eq!(decode_chunk(&d.data).unwrap(), contents[10..20].to_vec());

    // end past the file: clamped to the size, flagged last
    let d = read_data(&contents, 90, 200).unwrap();
    assert_eq!(d.end, 100);
    assert!(d.last_data);
    assert_eq!(decode_chunk(&d.data).unwrap(), contents[90..100].to_vec());

    // end exactly the file size counts as last
    let d = read_data(&contents, 0, 100).unwrap();
    assert_eq!(d.end, 100);
    assert!(d.last_data);

    // an empty but valid range
    let d = read_data(&contents, 30, 30).unwrap();
    assert_eq!(d.end, 30);
    assert!(!d.last_data);
    assert!(decode_chunk(&d.data).unwrap().is_empty());
}

#[test]
fn read_data_rejects_invalid_start() {
    let contents: Vec<u8> = vec![0; 50];

    // inverted range
    let e = read_data(&contents, 40, 10).unwrap_err();
    assert!(!e.is_empty());

    // start past the end of the file
    let e = read_data(&contents, 51, 60).unwrap_err();
    assert!(!e.is_empty());

    // start exactly at the end is an empty read, not an error
    let d = read_data(&contents, 50, 60).unwrap();
    assert_eq!(d.end, 50);
    assert!(d.last_data);
}

#[test]
fn copy_ranges_scenario() {
    // a 500,000 byte file pulled in two 300,000 byte requests
    let share = setting_up_test_file_tree("data-test".to_string());
    let mut svc = FileService::new("data-test".to_string());
    let a_data = share.files[0].data.clone();
    let hash = sha256::digest(&a_data);

    let d = svc
        .get_file_data(&share, 0, 0, 300000, hash.clone())
        .unwrap();
    assert_eq!(d.end, 300000);
    assert!(!d.last_data);

    let d = svc
        .get_file_data(&share, 0, 300000, 600000, hash.clone())
        .unwrap();
    assert_eq!(d.end, 500000);
    assert!(d.last_data);
}

#[test]
fn chunks_reconstruct_file() {
    // concatenating the decoded payloads of contiguous ranges rebuilds the
    // exact original bytes
    let share = small_share();
    let mut svc = FileService::new("share".to_string());
    let original = share.files[0].data.clone();
    let hash = sha256::digest(&original);

    let mut rebuilt: Vec<u8> = Vec::new();
    for (s, e) in [(0u64, 3u64), (3, 6), (6, 100)] {
        let d = svc.get_file_data(&share, 0, s, e, hash.clone()).unwrap();
        rebuilt.extend_from_slice(&decode_chunk(&d.data).unwrap());
    }
    assert_eq!(rebuilt, original);
}

#[test]
fn cache_hit_persists_and_expires() {
    let share = small_share();
    let mut svc = FileService::new("share".to_string());
    let hash = sha256::digest(&share.files[1].data);

    // nothing cached yet
    assert!(svc.resolve_cached(&hash, 100).is_none());

    // a miss resolves through the share and caches the resolution
    let d = svc.get_file_data(&share, 100, 0, 5, hash.clone()).unwrap();
    assert!(d.last_data);
    let (path, size) = svc.resolve_cached(&hash, 100).unwrap();
    assert_eq!(path, "share/b.bin");
    assert_eq!(size, 5);

    // a hit within the window leaves the entry in place for the next chunk
    let _ = svc.get_file_data(&share, 101, 0, 2, hash.clone()).unwrap();
    assert!(svc.resolve_cached(&hash, 101).is_some());
    assert!(svc.resolve_cached(&hash, 100 + CASH_TIMEOUT_SECS).is_some());

    // past the window the entry no longer hits, and the sweep drops it
    assert!(svc.resolve_cached(&hash, 101 + CASH_TIMEOUT_SECS).is_none());
    svc.sweep_cache(101 + CASH_TIMEOUT_SECS);
    assert!(svc.resolve_cached(&hash, 101 + CASH_TIMEOUT_SECS).is_none());

    // a later request transparently falls back to a fresh walk and succeeds
    let late = 200 + CASH_TIMEOUT_SECS;
    let d = svc.get_file_data(&share, late, 0, 5, hash.clone()).unwrap();
    assert!(d.last_data);
    assert!(svc.resolve_cached(&hash, late).is_some());
}

#[test]
fn sweep_keeps_fresh_entries() {
    let share = small_share();
    let mut svc = FileService::new("share".to_string());
    let hash_a = sha256::digest(&share.files[0].data);
    let hash_b = sha256::digest(&share.files[1].data);

    let _ = svc.get_file_data(&share, 10, 0, 1, hash_a.clone()).unwrap();
    let _ = svc
        .get_file_data(&share, 20 + CASH_TIMEOUT_SECS, 0, 1, hash_b.clone())
        .unwrap();

    // at this point hash_a is stale and hash_b is fresh
    svc.sweep_cache(20 + CASH_TIMEOUT_SECS);
    assert!(svc.resolve_cached(&hash_a, 20 + CASH_TIMEOUT_SECS).is_none());
    assert!(svc.resolve_cached(&hash_b, 20 + CASH_TIMEOUT_SECS).is_some());
}

#[test]
fn locate_by_hash_finds_nested_files() {
    let share = small_share();
    let nested = &share.dirs[0].files[0];
    let hash = sha256::digest(&nested.data);

    let found = locate_by_hash(&share, &hash).unwrap();
    assert_eq!(found.path, "share/sub/c.bin");
    assert_eq!(found.data, nested.data);

    let missing = "e3b0c44298fc1c149afbf4c8996fb92427ae41e4649b934ca495991b7852b855";
    assert!(locate_by_hash(&share, &missing.to_string()).is_none());
}

#[test]
fn unknown_hash_fails_resolution() {
    let share = small_share();
    let mut svc = FileService::new("share".to_string());
    let e = svc
        .get_file_data(&share, 0, 0, 10, "deadbeef".to_string())
        .unwrap_err();
    assert!(!e.is_empty());
}

#[test]
fn file_list_flattens_the_share() {
    let share = small_share();
    let listed = get_file_list(&share);

    // the directory's own files first, then the subdirectory's
    assert_eq!(listed.len(), 3);
    assert_eq!(listed[0].name, "a.bin");
    assert_eq!(listed[1].name, "b.bin");
    assert_eq!(listed[2].name, "c.bin");
    assert_eq!(listed[2].path, Some("share/sub/c.bin".to_string()));
    assert_eq!(listed[2].size, 3);
    assert_eq!(listed[2].hash, sha256::digest(&share.dirs[0].files[0].data));
}
