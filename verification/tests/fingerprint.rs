use sha2::{Digest, Sha256};
use tiber::fingerprint::{
    scope_fingerprint, tree_final_review_fingerprint_cache_key, BlobContent, CachedFingerprint,
    ScopeError, TreeEntryRecord, TreeFinalReviewFingerprintCache, TreeManifestEntry,
};

fn hex(bytes: &[u8]) -> String {
    bytes.iter().map(|b| format!("{b:02x}")).collect()
}

fn record(path: &str, mode: &str, object_type: &str, oid: &str) -> TreeEntryRecord {
    TreeEntryRecord {
        path: path.into(),
        entry: TreeManifestEntry {
            mode: mode.into(),
            object_type: object_type.into(),
            oid: oid.into(),
        },
    }
}

#[test]
fn scope_fingerprint_hashes_paths_modes_and_contents_in_order() {
    let paths: Vec<String> = vec!["a.txt".into(), "gone.txt".into(), "link".into(), "sub".into()];
    let entries = vec![
        record("a.txt", "100644", "blob", "o1"),
        record("link", "120000", "blob", "o2"),
        record("sub", "160000", "commit", "c1"),
    ];
    let blobs = vec![
        BlobContent { oid: "o1".into(), bytes: b"hi\n".to_vec() },
        BlobContent { oid: "o2".into(), bytes: b"a.txt".to_vec() },
    ];
    let (missing, fingerprint) = scope_fingerprint(&paths, &entries, &blobs).unwrap();
    assert_eq!(missing, vec!["gone.txt".to_string()]);

    let mut expected = Vec::new();
    expected.extend_from_slice(b"tiber-final-review-scope-v5\0");
    expected.extend_from_slice(b"a.txt\0100644\0blob\0hi\n\0");
    expected.extend_from_slice(b"gone.txt\0deleted\0deleted\0");
    expected.extend_from_slice(b"link\0120000\0symlink\0a.txt\0");
    expected.extend_from_slice(b"sub\0160000\0gitlink\0c1\0");
    let digest = Sha256::digest(&expected);
    assert_eq!(fingerprint, format!("sha256:v5:{}", hex(&digest)));
}

#[test]
fn a_later_listing_of_a_path_replaces_the_earlier_one() {
    let paths: Vec<String> = vec!["d".into()];
    let entries = vec![record("d", "100644", "blob", "x"), record("d", "040000", "tree", "t")];
    let (missing, fingerprint) = scope_fingerprint(&paths, &entries, &vec![]).unwrap();
    assert!(missing.is_empty());
    let digest = Sha256::digest(b"tiber-final-review-scope-v5\0d\0040000\0directory\0\0");
    assert_eq!(fingerprint, format!("sha256:v5:{}", hex(&digest)));
}

#[test]
fn scope_fingerprint_refuses_bad_paths_entries_and_missing_blobs() {
    let empty: Vec<String> = vec!["".into()];
    assert_eq!(scope_fingerprint(&empty, &vec![], &vec![]), Err(ScopeError::ScopeInvalid));
    let absolute: Vec<String> = vec!["/etc".into()];
    assert_eq!(scope_fingerprint(&absolute, &vec![], &vec![]), Err(ScopeError::ScopeInvalid));
    let paths: Vec<String> = vec!["f".into()];
    let odd = vec![record("f", "100000", "blob", "o")];
    assert_eq!(
        scope_fingerprint(&paths, &odd, &vec![]),
        Err(ScopeError::EntryUnsupported {
            path: "f".into(),
            mode: "100000".into(),
            object_type: "blob".into(),
        })
    );
    let file = vec![record("f", "100755", "blob", "o")];
    assert_eq!(scope_fingerprint(&paths, &file, &vec![]), Err(ScopeError::BlobMissing));
}

#[test]
fn cache_key_hashes_the_length_framed_scope() {
    let requested: Vec<String> = vec!["*.txt".into()];
    let retained: Vec<String> = vec![":(literal)one.txt".into(), ":(literal)two.txt".into()];
    let key = tree_final_review_fingerprint_cache_key("abc123", "source", &requested, &retained);
    let mut hasher = Sha256::new();
    hasher.update(b"tiber-final-review-tree-cache-v1\0");
    for value in ["abc123", "source"] {
        hasher.update((value.len() as u64).to_le_bytes());
        hasher.update(value.as_bytes());
    }
    for scope in [&requested, &retained] {
        hasher.update((scope.len() as u64).to_le_bytes());
        for path in scope.iter() {
            hasher.update((path.len() as u64).to_le_bytes());
            hasher.update(path.as_bytes());
        }
    }
    let expected: [u8; 32] = hasher.finalize().into();
    assert_eq!(key, expected.to_vec());
    let other = tree_final_review_fingerprint_cache_key("abc123", "verification", &requested, &retained);
    assert_ne!(key, other);
}

fn cached(text: &str) -> CachedFingerprint {
    CachedFingerprint { missing: vec![], fingerprint: text.into() }
}

#[test]
fn fingerprint_cache_evicts_the_least_recently_used_scope() {
    let mut cache = TreeFinalReviewFingerprintCache::with_max_entries(2);
    cache.store(vec![1], cached("one"));
    cache.store(vec![2], cached("two"));
    assert_eq!(cache.lookup(&vec![1]).unwrap().fingerprint, "one");
    cache.store(vec![3], cached("three"));
    assert_eq!(cache.len(), 2);
    assert!(cache.lookup(&vec![2]).is_none());
    assert_eq!(cache.lookup(&vec![1]).unwrap().fingerprint, "one");
    assert_eq!(cache.lookup(&vec![3]).unwrap().fingerprint, "three");
}

#[test]
fn fingerprint_cache_of_no_entries_keeps_nothing() {
    let mut cache = TreeFinalReviewFingerprintCache::with_max_entries(0);
    cache.store(vec![1], cached("one"));
    assert_eq!(cache.len(), 0);
    assert!(cache.lookup(&vec![1]).is_none());
    let default_cache = TreeFinalReviewFingerprintCache::new();
    assert_eq!(default_cache.len(), 0);
}

#[test]
fn storing_a_known_key_replaces_its_value() {
    let mut cache = TreeFinalReviewFingerprintCache::with_max_entries(2);
    cache.store(vec![1], cached("one"));
    cache.store(vec![1], cached("uno"));
    assert_eq!(cache.len(), 1);
    assert_eq!(cache.lookup(&vec![1]).unwrap().fingerprint, "uno");
}
