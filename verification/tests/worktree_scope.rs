use sha2::Digest;
use tiber::worktree_scope::{
    index_is_gitlink, parse_index_modes, worktree_scope_fingerprint, NestedCheckout, WorktreeEntry,
    WorktreeScopeError,
};

fn s(x: &str) -> String {
    x.to_string()
}

fn index() -> Vec<(String, Vec<u8>)> {
    parse_index_modes(b"100644 aaaa 0\ta.txt\0160000 bbbb 0\tsub\0no tab here\0").expect("index")
}

#[test]
fn index_listing_gives_paths_and_modes() {
    let idx = index();
    assert_eq!(idx, vec![(s("a.txt"), b"100644".to_vec()), (s("sub"), b"160000".to_vec())]);
    assert!(index_is_gitlink(&idx, &s("sub")));
    assert!(!index_is_gitlink(&idx, &s("a.txt")));
    assert!(!index_is_gitlink(&idx, &s("other")));
    let later = parse_index_modes(b"160000 x 1\tsub\0100644 y 2\tsub\0").unwrap();
    assert!(!index_is_gitlink(&later, &s("sub")));
    assert_eq!(parse_index_modes(b"100644 x 0\t\xff\xfe\0").unwrap_err(), WorktreeScopeError::PathInvalidUtf8);
}

fn expected(parts: &[&[u8]]) -> String {
    let mut pre = b"tiber-final-review-scope-v5\0".to_vec();
    for p in parts {
        pre.extend_from_slice(p);
    }
    let digest = sha2::Sha256::digest(&pre);
    let mut hex = String::new();
    for b in digest.iter() {
        hex.push_str(&format!("{b:02x}"));
    }
    format!("sha256:v5:{hex}")
}

#[test]
fn worktree_fingerprint_hashes_each_path_with_what_is_there() {
    let paths = vec![s("a.txt"), s("gone"), s("link"), s("dir"), s("sub"), s("run.sh")];
    let entries = vec![
        WorktreeEntry::File { executable: false, contents: b"hi".to_vec() },
        WorktreeEntry::Missing,
        WorktreeEntry::Symlink { target: b"a.txt".to_vec() },
        WorktreeEntry::Directory { nested: None },
        WorktreeEntry::Directory { nested: Some(NestedCheckout::Clean { head: s(" 0123abcd\n") }) },
        WorktreeEntry::File { executable: true, contents: b"#!".to_vec() },
    ];
    let got = worktree_scope_fingerprint(&paths, &entries, &index(), 100).expect("fingerprint");
    let want = expected(&[
        b"a.txt\0100644\0blob\0hi\0",
        b"gone\0deleted\0deleted\0",
        b"link\0120000\0symlink\0a.txt\0",
        b"dir\0040000\0directory\0\0",
        b"sub\0160000\0gitlink\00123abcd\0",
        b"run.sh\0100755\0blob\0#!\0",
    ]);
    assert_eq!(got, want);
    assert!(got.starts_with("sha256:v5:"));
    assert_eq!(got.len(), "sha256:v5:".len() + 64);
}

#[test]
fn worktree_fingerprint_refuses_unusable_submodules_and_large_scopes() {
    let idx = index();
    let one = |e: WorktreeEntry| worktree_scope_fingerprint(&vec![s("sub")], &vec![e], &idx, 100);
    assert_eq!(
        one(WorktreeEntry::Missing).unwrap_err(),
        WorktreeScopeError::GitlinkUnavailable { path: s("sub"), repair: false }
    );
    assert_eq!(
        one(WorktreeEntry::Directory { nested: Some(NestedCheckout::Dirty) }).unwrap_err(),
        WorktreeScopeError::GitlinkDirty { path: s("sub") }
    );
    assert_eq!(
        one(WorktreeEntry::Directory { nested: Some(NestedCheckout::Unreadable) }).unwrap_err(),
        WorktreeScopeError::GitlinkUnavailable { path: s("sub"), repair: true }
    );
    assert_eq!(
        one(WorktreeEntry::Directory { nested: Some(NestedCheckout::Uninitialized) }).unwrap_err(),
        WorktreeScopeError::GitlinkUnavailable { path: s("sub"), repair: false }
    );
    let big = worktree_scope_fingerprint(
        &vec![s("a.txt"), s("b.txt")],
        &vec![
            WorktreeEntry::File { executable: false, contents: b"abc".to_vec() },
            WorktreeEntry::File { executable: false, contents: b"de".to_vec() },
        ],
        &idx,
        4,
    );
    assert_eq!(big.unwrap_err(), WorktreeScopeError::ContentTooLarge);
}
