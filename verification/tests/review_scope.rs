use tiber::fingerprint::{TreeEntryRecord, TreeManifestEntry};
use tiber::worktree_scope::{worktree_scope_fingerprint, WorktreeEntry, WorktreeScopeError};
use tiber::review_scope::{
    final_review_blob_oids, final_review_literal_paths, final_review_scope_paths,
    final_review_scope_snapshot, final_review_scope_valid, literal_pathspecs, merge_final_review_scope_paths, sorted_union,
    tree_scope_paths, tree_scope_valid, ScopeSnapshotError, FINAL_REVIEW_SCOPE_MAX_PATHS,
};

fn v(xs: &[&str]) -> Vec<String> {
    xs.iter().map(|x| x.to_string()).collect()
}

#[test]
fn scopes_are_relative_pathspecs() {
    assert!(final_review_scope_valid(&v(&["src", ":(literal)a b"])));
    assert!(!final_review_scope_valid(&v(&[])));
    assert!(!final_review_scope_valid(&v(&["src", ""])));
    assert!(!final_review_scope_valid(&v(&["-x"])));
    assert!(!final_review_scope_valid(&v(&["/etc"])));
    assert!(!final_review_scope_valid(&v(&["a\0b"])));
}

#[test]
fn literal_paths_stay_inside_the_repository() {
    assert_eq!(final_review_literal_paths(&v(&["src", ":(literal)a/b", ":(literal)..x"])), Ok(v(&["a/b", "..x"])));
    for bad in [":(literal)", ":(literal)/etc", ":(literal)../x", ":(literal)a/../b", ":(literal)a/.."] {
        assert_eq!(
            final_review_literal_paths(&v(&["src", bad])),
            Err(ScopeSnapshotError::LiteralPathInvalid),
            "{bad}"
        );
    }
}

#[test]
fn listed_paths_are_merged_sorted_and_deduplicated() {
    let lists = vec![v(&["b", "a"]), v(&["c", "a"]), v(&[])];
    assert_eq!(merge_final_review_scope_paths(&lists, 10), Ok(v(&["a", "b", "c"])));
    assert_eq!(
        merge_final_review_scope_paths(&lists, 2),
        Err(ScopeSnapshotError::TooManyPaths { paths: 3 })
    );
    assert_eq!(merge_final_review_scope_paths(&vec![v(&[])], 2), Err(ScopeSnapshotError::Empty));
    assert_eq!(FINAL_REVIEW_SCOPE_MAX_PATHS, 100_000);
}

#[test]
fn scope_paths_add_the_literal_paths() {
    let scope = v(&["src", ":(literal)new file"]);
    assert_eq!(
        final_review_scope_paths(&scope, vec![v(&["src/z", "src/a"])], 10),
        Ok(v(&["new file", "src/a", "src/z"]))
    );
    assert_eq!(
        final_review_scope_paths(&v(&[":(literal)/abs"]), vec![v(&["x"])], 10),
        Err(ScopeSnapshotError::LiteralPathInvalid)
    );
    assert_eq!(final_review_scope_paths(&v(&["src"]), vec![], 10), Err(ScopeSnapshotError::Empty));
}

fn entry(path: &str, mode: &str, object_type: &str, oid: &str) -> TreeEntryRecord {
    TreeEntryRecord {
        path: path.to_string(),
        entry: TreeManifestEntry { mode: mode.to_string(), object_type: object_type.to_string(), oid: oid.to_string() },
    }
}

#[test]
fn tree_scopes_need_relative_paths_on_both_sides() {
    assert!(tree_scope_valid(&v(&["src"]), &v(&[":(literal)src/a"])));
    assert!(!tree_scope_valid(&v(&[]), &v(&["a"])));
    assert!(!tree_scope_valid(&v(&["a"]), &v(&[])));
    assert!(!tree_scope_valid(&v(&["/a"]), &v(&["a"])));
    assert!(!tree_scope_valid(&v(&["a"]), &v(&["b\0"])));
}

#[test]
fn tree_scope_paths_join_materialized_and_retained_paths() {
    assert_eq!(
        tree_scope_paths(v(&["b", "a"]), &v(&[":(literal)c", "a"]), 10),
        Ok(v(&["a", "b", "c"]))
    );
    assert_eq!(
        tree_scope_paths(v(&["b", "a"]), &v(&[":(literal)c"]), 2),
        Err(ScopeSnapshotError::TooManyPaths { paths: 3 })
    );
    assert_eq!(tree_scope_paths(v(&[]), &v(&[]), 0), Ok(v(&[])));
    assert_eq!(sorted_union(&vec![v(&["z", "y"]), v(&["y"])]), v(&["y", "z"]));
    assert_eq!(literal_pathspecs(&v(&["a b", "c"])), v(&[":(literal)a b", ":(literal)c"]));
}

#[test]
fn blob_objects_are_read_once_for_files_and_symlinks() {
    let entries = vec![
        entry("a", "100644", "blob", "o2"),
        entry("b", "040000", "tree", "t1"),
        entry("c", "120000", "blob", "o1"),
        entry("e", "160000", "commit", "c1"),
        entry("a", "100755", "blob", "o3"),
        entry("f", "100644", "blob", "o1"),
    ];
    assert_eq!(final_review_blob_oids(&v(&["a", "b", "c", "d", "e", "f"]), &entries), v(&["o1", "o3"]));
    assert!(final_review_blob_oids(&v(&["d"]), &entries).is_empty());
}

#[test]
fn final_review_scope_fingerprinting_bounds_git_output_paths_and_content() {
    // What git lists for a scope of two files, `one.txt` ("12") and `two.txt` ("34").
    let scope = v(&["."]);
    let listed = vec![v(&["one.txt", "two.txt"])];
    let path_count = final_review_scope_snapshot(&scope, listed.clone(), 1).unwrap_err();
    assert_eq!(path_count, ScopeSnapshotError::TooManyPaths { paths: 2 });
    assert!(path_count.limit_condition().unwrap().contains("condition=path_count"));

    let paths = final_review_scope_snapshot(&scope, listed, 10).expect("within the path limit");
    assert_eq!(paths, v(&["one.txt", "two.txt"]));
    let entries = vec![
        WorktreeEntry::File { executable: false, contents: b"12".to_vec() },
        WorktreeEntry::File { executable: false, contents: b"34".to_vec() },
    ];
    let content = worktree_scope_fingerprint(&paths, &entries, &Vec::new(), 1).unwrap_err();
    assert_eq!(content, WorktreeScopeError::ContentTooLarge);
    assert!(content.limit_condition().unwrap().contains("condition=content_bytes"));
    assert!(worktree_scope_fingerprint(&paths, &entries, &Vec::new(), 10).is_ok());
}

#[test]
fn scope_snapshot_refuses_invalid_scopes_first_and_keeps_literal_paths() {
    let listed = vec![v(&["b", "a"])];
    assert_eq!(final_review_scope_snapshot(&v(&[]), listed.clone(), 10), Err(ScopeSnapshotError::ScopeInvalid));
    assert_eq!(
        final_review_scope_snapshot(&v(&["-x", ":(literal)../up"]), listed.clone(), 10),
        Err(ScopeSnapshotError::ScopeInvalid)
    );
    assert_eq!(
        final_review_scope_snapshot(&v(&["src", ":(literal)../up"]), listed.clone(), 10),
        Err(ScopeSnapshotError::LiteralPathInvalid)
    );
    assert_eq!(
        final_review_scope_snapshot(&v(&["src", ":(literal)gone.txt"]), listed.clone(), 10),
        Ok(v(&["a", "b", "gone.txt"]))
    );
    assert_eq!(final_review_scope_snapshot(&v(&["src"]), vec![], 10), Err(ScopeSnapshotError::Empty));
    assert_eq!(ScopeSnapshotError::Empty.limit_condition(), None);
}
