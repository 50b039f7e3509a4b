use tiber::fingerprint::BlobContent;
use tiber::git_output::{
    bounded_final_review_paths, final_review_pathspec_uses_attributes, parse_blob_batch,
    parse_tree_listing, split_nul_records, GitOutputError,
};

#[test]
fn nul_records_skip_empty_pieces() {
    let records = split_nul_records(b"a\0\0bc\0");
    assert_eq!(records, vec![b"a".to_vec(), b"bc".to_vec()]);
    assert!(split_nul_records(b"").is_empty());
    assert_eq!(split_nul_records(b"x"), vec![b"x".to_vec()]);
}

#[test]
fn path_lists_are_utf8_and_bounded() {
    assert_eq!(
        bounded_final_review_paths(b"src/a.rs\0docs/b.md\0", 5),
        Ok(vec!["src/a.rs".to_string(), "docs/b.md".to_string()])
    );
    assert_eq!(
        bounded_final_review_paths(b"a\0b\0c\0", 2),
        Err(GitOutputError::TooManyPaths { paths: 3 })
    );
    assert_eq!(bounded_final_review_paths(b"ok\0\xff\xfe\0", 1), Err(GitOutputError::PathInvalidUtf8));
}

#[test]
fn tree_listings_give_mode_type_object_and_path() {
    let out = b"100644 blob 1111111111111111111111111111111111111111\tsrc/a.rs\0040000 tree 2222222222222222222222222222222222222222\tsrc\0";
    let entries = parse_tree_listing(out).expect("listing");
    assert_eq!(entries.len(), 2);
    assert_eq!(entries[0].path, "src/a.rs");
    assert_eq!(entries[0].entry.mode, "100644");
    assert_eq!(entries[0].entry.object_type, "blob");
    assert_eq!(entries[0].entry.oid, "1111111111111111111111111111111111111111");
    assert_eq!(entries[1].entry.object_type, "tree");
    assert_eq!(parse_tree_listing(b"100644 blob abc no-tab\0").unwrap_err(), GitOutputError::TreeEntryInvalid);
    assert_eq!(parse_tree_listing(b"100644 blob abc\t\xff\0").unwrap_err(), GitOutputError::PathInvalidUtf8);
    let short = parse_tree_listing(b"160000\tmodule\0").expect("short metadata");
    assert_eq!(short[0].entry.mode, "160000");
    assert_eq!(short[0].entry.oid, "");
}

#[test]
fn blob_batches_answer_the_requested_objects_in_order() {
    let requested = vec!["aaa".to_string(), "bbb".to_string()];
    let out = b"aaa blob 3\none\nbbb blob 0\n\n";
    let blobs: Vec<BlobContent> = parse_blob_batch(&requested, out).expect("batch");
    assert_eq!(blobs.len(), 2);
    assert_eq!(blobs[0].oid, "aaa");
    assert_eq!(blobs[0].bytes, b"one".to_vec());
    assert_eq!(blobs[1].bytes, Vec::<u8>::new());
    assert!(parse_blob_batch(&vec![], b"").expect("nothing requested").is_empty());
}

#[test]
fn blob_batches_refuse_other_answers() {
    let requested = vec!["aaa".to_string()];
    for out in [
        &b"bbb blob 3\none\n"[..],
        b"aaa tree 3\none\n",
        b"aaa blob x\none\n",
        b"aaa blob 3\none",
        b"aaa blob 3\nonex",
        b"aaa blob 3\none\nextra",
        b"aaa blob",
    ] {
        assert_eq!(parse_blob_batch(&requested, out).unwrap_err(), GitOutputError::BlobBatchInvalid);
    }
}

#[test]
fn attribute_magic_is_found_in_any_component() {
    assert!(final_review_pathspec_uses_attributes(":(attr:review)src"));
    assert!(final_review_pathspec_uses_attributes(":(glob,attr:x)src/**"));
    assert!(!final_review_pathspec_uses_attributes(":(glob)src"));
    assert!(!final_review_pathspec_uses_attributes("src/attr:x"));
    assert!(!final_review_pathspec_uses_attributes(":(attr:x"));
    assert!(!final_review_pathspec_uses_attributes(":(glob)attr:x"));
    assert!(!final_review_pathspec_uses_attributes(":(xattr:y)src"));
}
