//! The fingerprint of a review scope in the working tree: every path in
//! order with what the file system holds there, hashed with SHA-256; paths
//! that the index records as submodules must be clean nested checkouts.
use vstd::prelude::*;
use crate::fingerprint::{fingerprint_text, push_str_bytes, sha256_digest, utf8_encode};
use crate::git_output::{
    byte_index, byte_vecs, bytes_range, decode_utf8, decoded, find_byte, is_utf8, nul_records, split_nul_records,
};
use crate::text::trim;

verus! {

// ---------------------------------------------------------------------------
// The index

/// The mode of an index record: the bytes before its first space.
pub open spec fn record_mode(meta: Seq<u8>) -> Seq<u8> {
    match byte_index(meta, 32, 0) {
        Some(k) => meta.take(k),
        None => meta,
    }
}

/// What an index record says, when it has a tab: its path (or that the path
/// is not UTF-8) and its mode.
pub open spec fn index_record(r: Seq<u8>) -> Option<Option<(Seq<char>, Seq<u8>)>> {
    match byte_index(r, 9, 0) {
        None => None,
        Some(sep) => if is_utf8(r.skip(sep + 1)) {
            Some(Some((decoded(r.skip(sep + 1)), record_mode(r.take(sep)))))
        } else {
            Some(None)
        },
    }
}

/// The paths and modes of an index listing; `None` when a path is not UTF-8.
pub open spec fn index_entries(records: Seq<Seq<u8>>) -> Option<Seq<(Seq<char>, Seq<u8>)>>
    decreases records.len(),
{
    if records.len() == 0 {
        Some(Seq::empty())
    } else {
        match index_entries(records.drop_last()) {
            None => None,
            Some(rest) => match index_record(records.last()) {
                None => Some(rest),
                Some(None) => None,
                Some(Some(e)) => Some(rest.push(e)),
            },
        }
    }
}

/// Whether the index records `path` as a submodule: its last record has
/// mode `160000`.
pub open spec fn is_gitlink(entries: Seq<(Seq<char>, Seq<u8>)>, path: Seq<char>) -> bool
    decreases entries.len(),
{
    if entries.len() == 0 {
        false
    } else if entries.last().0 == path {
        entries.last().1 == utf8_encode("160000"@)
    } else {
        is_gitlink(entries.drop_last(), path)
    }
}

/// Why a working-tree scope cannot be fingerprinted.
#[derive(Debug, PartialEq, Eq)]
pub enum WorktreeScopeError {
    /// An index path is not UTF-8.
    PathInvalidUtf8,
    /// A submodule of the scope has no usable checkout; `repair` when it
    /// exists but cannot be read.
    GitlinkUnavailable { path: String, repair: bool },
    /// A submodule of the scope has uncommitted changes.
    GitlinkDirty { path: String },
    /// The files of the scope hold more content than the limit.
    ContentTooLarge,
}

pub enum WorktreeErrorView {
    PathInvalidUtf8,
    GitlinkUnavailable { path: Seq<char>, repair: bool },
    GitlinkDirty { path: Seq<char> },
    ContentTooLarge,
}

impl View for WorktreeScopeError {
    type V = WorktreeErrorView;

    open spec fn view(&self) -> WorktreeErrorView {
        match self {
            WorktreeScopeError::PathInvalidUtf8 => WorktreeErrorView::PathInvalidUtf8,
            WorktreeScopeError::GitlinkUnavailable { path, repair } => WorktreeErrorView::GitlinkUnavailable {
                path: path@,
                repair: *repair,
            },
            WorktreeScopeError::GitlinkDirty { path } => WorktreeErrorView::GitlinkDirty { path: path@ },
            WorktreeScopeError::ContentTooLarge => WorktreeErrorView::ContentTooLarge,
        }
    }
}

impl WorktreeScopeError {
    /// The limit that a too-large scope's message names, when the refusal
    /// is for a limit.
    pub fn limit_condition(&self) -> (r: Option<&'static str>)
        ensures
            match self {
                WorktreeScopeError::ContentTooLarge => r matches Some(c) && c@ == "condition=content_bytes"@,
                _ => r is None,
            },
    {
        match self {
            WorktreeScopeError::ContentTooLarge => Some("condition=content_bytes"),
            _ => None,
        }
    }
}

pub open spec fn index_views(v: Seq<(String, Vec<u8>)>) -> Seq<(Seq<char>, Seq<u8>)> {
    v.map_values(|e: (String, Vec<u8>)| (e.0@, e.1@))
}

/// The paths and modes of a `git ls-files --stage -z` listing.
pub fn parse_index_modes(bytes: &[u8]) -> (r: Result<Vec<(String, Vec<u8>)>, WorktreeScopeError>)
    ensures
        match index_entries(nul_records(bytes@)) {
            Some(es) => r matches Ok(v) && index_views(v@) == es,
            None => r matches Err(WorktreeScopeError::PathInvalidUtf8),
        },
{
    let records = split_nul_records(bytes);
    let ghost rs = byte_vecs(records@);
    let mut out: Vec<(String, Vec<u8>)> = Vec::new();
    let mut i: usize = 0;
    while i < records.len()
        invariant
            i <= records@.len(),
            rs == byte_vecs(records@),
            rs == nul_records(bytes@),
            index_entries(rs.take(i as int)) == Some(index_views(out@)),
        decreases records.len() - i,
    {
        assert(rs.take(i + 1).drop_last() =~= rs.take(i as int));
        assert(rs.take(i + 1).last() == records@[i as int]@);
        let rec = records[i].as_slice();
        let len = rec.len();
        assert(len == rec@.len());
        match find_byte(rec, 9, 0) {
            None => {},
            Some(sep) => {
                let path_bytes = bytes_range(rec, sep + 1, len);
                assert(path_bytes@ =~= rec@.skip(sep + 1));
                let meta = bytes_range(rec, 0, sep);
                assert(meta@ =~= rec@.take(sep as int));
                let mode = match find_byte(meta.as_slice(), 32, 0) {
                    Some(k) => {
                        let m = bytes_range(meta.as_slice(), 0, k);
                        assert(m@ =~= meta@.take(k as int));
                        m
                    },
                    None => meta,
                };
                match decode_utf8(path_bytes) {
                    None => {
                        proof {
                            lemma_index_error_sticks(rs, i + 1);
                        }
                        return Err(WorktreeScopeError::PathInvalidUtf8);
                    },
                    Some(path) => {
                        proof {
                            crate::git_output::lemma_decoded(path@, rec@.skip(sep + 1));
                        }
                        let ghost before = index_views(out@);
                        out.push((path, mode));
                        assert(index_views(out@) =~= before.push((out@[out@.len() - 1].0@, out@[out@.len() - 1].1@)));
                    },
                }
            },
        }
        i = i + 1;
    }
    assert(rs.take(i as int) =~= rs);
    Ok(out)
}

proof fn lemma_index_error_sticks(rs: Seq<Seq<u8>>, n: int)
    requires
        0 <= n <= rs.len(),
        index_entries(rs.take(n)) is None,
    ensures
        index_entries(rs) is None,
    decreases rs.len() - n,
{
    if n < rs.len() {
        assert(rs.take(n + 1).drop_last() =~= rs.take(n));
        lemma_index_error_sticks(rs, n + 1);
    } else {
        assert(rs.take(n) =~= rs);
    }
}

/// Whether the index records `path` as a submodule.
pub fn index_is_gitlink(entries: &Vec<(String, Vec<u8>)>, path: &String) -> (r: bool)
    ensures
        r == is_gitlink(index_views(entries@), path@),
{
    let ghost ev = index_views(entries@);
    let mut k: usize = entries.len();
    assert(ev.take(k as int) =~= ev);
    while k > 0
        invariant
            k <= entries@.len(),
            ev == index_views(entries@),
            is_gitlink(ev, path@) == is_gitlink(ev.take(k as int), path@),
        decreases k,
    {
        assert(ev.take(k as int).drop_last() =~= ev.take(k - 1));
        assert(ev.take(k as int).last() == ev[k - 1]);
        if crate::text::str_eq(entries[k - 1].0.as_str(), path.as_str()) {
            let mut gitlink_mode: Vec<u8> = Vec::new();
            push_str_bytes(&mut gitlink_mode, "160000");
            let m = &entries[k - 1].1;
            let mut same = m.len() == gitlink_mode.len();
            let mut j: usize = 0;
            while same && j < m.len()
                invariant
                    j <= m@.len(),
                    same ==> m@.len() == gitlink_mode@.len(),
                    same ==> forall|q: int| 0 <= q < j ==> m@[q] == gitlink_mode@[q],
                    !same ==> m@ != gitlink_mode@,
                decreases m.len() - j,
            {
                if m[j] != gitlink_mode[j] {
                    same = false;
                }
                j = j + 1;
            }
            if same {
                assert(m@ =~= gitlink_mode@);
            }
            return same;
        }
        k = k - 1;
    }
    false
}

// ---------------------------------------------------------------------------
// What the working tree holds

/// What a submodule's nested checkout is like.
#[derive(Debug)]
pub enum NestedCheckout {
    /// No checkout of its own, or no commit checked out.
    Uninitialized,
    /// Its status cannot be read.
    Unreadable,
    /// It has uncommitted changes.
    Dirty,
    /// Clean, at commit `head`.
    Clean { head: String },
}

/// What the file system holds at a path of the scope.
#[derive(Debug)]
pub enum WorktreeEntry {
    Missing,
    Symlink { target: Vec<u8> },
    /// A directory; a submodule's also says what its checkout is like.
    Directory { nested: Option<NestedCheckout> },
    File { executable: bool, contents: Vec<u8> },
}

/// The bytes hashed so far and the content bytes counted.
pub struct WorktreeAcc {
    pub bytes: Seq<u8>,
    pub content: nat,
}

pub open spec fn tagged(pre: Seq<u8>, mode: Seq<char>, kind: Seq<char>) -> Seq<u8> {
    pre + utf8_encode(mode).push(0) + utf8_encode(kind).push(0)
}

/// The bytes one path adds: the path, then `deleted` twice when nothing is
/// there, or a mode, a kind and what it is, and a final zero.
pub open spec fn worktree_step(
    acc: WorktreeAcc,
    path: Seq<char>,
    e: WorktreeEntry,
    gitlink: bool,
    limit: nat,
) -> Result<WorktreeAcc, WorktreeErrorView> {
    let pre = acc.bytes + utf8_encode(path).push(0);
    match e {
        WorktreeEntry::Missing => if gitlink {
            Err(WorktreeErrorView::GitlinkUnavailable { path, repair: false })
        } else {
            Ok(WorktreeAcc { bytes: tagged(pre, "deleted"@, "deleted"@), content: acc.content })
        },
        WorktreeEntry::Symlink { target } => Ok(
            WorktreeAcc { bytes: tagged(pre, "120000"@, "symlink"@) + target@.push(0), content: acc.content },
        ),
        WorktreeEntry::Directory { nested } => if gitlink {
            match nested {
                Some(NestedCheckout::Clean { head }) => Ok(
                    WorktreeAcc {
                        bytes: tagged(pre, "160000"@, "gitlink"@) + utf8_encode(trim(head@)).push(0),
                        content: acc.content,
                    },
                ),
                Some(NestedCheckout::Dirty) => Err(WorktreeErrorView::GitlinkDirty { path }),
                Some(NestedCheckout::Unreadable) => Err(WorktreeErrorView::GitlinkUnavailable { path, repair: true }),
                _ => Err(WorktreeErrorView::GitlinkUnavailable { path, repair: false }),
            }
        } else {
            Ok(WorktreeAcc { bytes: tagged(pre, "040000"@, "directory"@).push(0), content: acc.content })
        },
        WorktreeEntry::File { executable, contents } => if acc.content + contents@.len() > limit {
            Err(WorktreeErrorView::ContentTooLarge)
        } else {
            Ok(
                WorktreeAcc {
                    bytes: tagged(
                        pre,
                        if executable {
                            "100755"@
                        } else {
                            "100644"@
                        },
                        "blob"@,
                    ) + contents@.push(0),
                    content: acc.content + contents@.len(),
                },
            )
        },
    }
}

/// The scope bytes once the first `n` paths are hashed.
pub open spec fn worktree_prefix(
    paths: Seq<Seq<char>>,
    entries: Seq<WorktreeEntry>,
    index: Seq<(Seq<char>, Seq<u8>)>,
    limit: nat,
    n: nat,
) -> Result<WorktreeAcc, WorktreeErrorView>
    decreases n,
{
    if n == 0 {
        Ok(WorktreeAcc { bytes: utf8_encode("tiber-final-review-scope-v5"@).push(0), content: 0 })
    } else {
        let k = n - 1;
        match worktree_prefix(paths, entries, index, limit, k as nat) {
            Ok(acc) => worktree_step(acc, paths[k], entries[k], is_gitlink(index, paths[k]), limit),
            Err(e) => Err(e),
        }
    }
}


proof fn lemma_worktree_error_sticks(
    paths: Seq<Seq<char>>,
    entries: Seq<WorktreeEntry>,
    index: Seq<(Seq<char>, Seq<u8>)>,
    limit: nat,
    n: nat,
    m: nat,
)
    requires
        n <= m,
        worktree_prefix(paths, entries, index, limit, n) is Err,
    ensures
        worktree_prefix(paths, entries, index, limit, m) == worktree_prefix(paths, entries, index, limit, n),
    decreases m - n,
{
    if n < m {
        lemma_worktree_error_sticks(paths, entries, index, limit, n, (m - 1) as nat);
    }
}

fn push_tag(pre: &mut Vec<u8>, mode: &str, kind: &str)
    ensures
        final(pre)@ == tagged(old(pre)@, mode@, kind@),
{
    push_str_bytes(pre, mode);
    pre.push(0);
    push_str_bytes(pre, kind);
    pre.push(0);
}

fn push_bytes(pre: &mut Vec<u8>, b: &Vec<u8>)
    ensures
        final(pre)@ == old(pre)@ + b@,
{
    let ghost start = pre@;
    let mut i: usize = 0;
    while i < b.len()
        invariant
            i <= b@.len(),
            pre@ == start + b@.take(i as int),
        decreases b.len() - i,
    {
        pre.push(b[i]);
        assert(b@.take(i + 1) =~= b@.take(i as int).push(b@[i as int]));
        i = i + 1;
    }
    assert(b@.take(i as int) =~= b@);
}

/// The fingerprint of a review scope in the working tree, from what the file
/// system holds at each path (`entries`, by position) and the index listing:
/// every path in order, hashed with SHA-256 as `sha256:v5:<hex>`.
pub fn worktree_scope_fingerprint(
    paths: &Vec<String>,
    entries: &Vec<WorktreeEntry>,
    index: &Vec<(String, Vec<u8>)>,
    limit: u64,
) -> (r: Result<String, WorktreeScopeError>)
    requires
        entries@.len() == paths@.len(),
    ensures
        match worktree_prefix(
            crate::fingerprint::strs(paths@),
            entries@,
            index_views(index@),
            limit as nat,
            paths@.len(),
        ) {
            Ok(acc) => r matches Ok(t) && t@ == fingerprint_text(acc.bytes),
            Err(e) => r matches Err(x) && x@ == e,
        },
{
    let ghost ps = crate::fingerprint::strs(paths@);
    let ghost es = entries@;
    let ghost iv = index_views(index@);
    let mut pre: Vec<u8> = Vec::new();
    push_str_bytes(&mut pre, "tiber-final-review-scope-v5");
    pre.push(0);
    let mut content: u64 = 0;
    let mut i: usize = 0;
    while i < paths.len()
        invariant
            i <= paths@.len(),
            entries@.len() == paths@.len(),
            ps == crate::fingerprint::strs(paths@),
            es == entries@,
            iv == index_views(index@),
            content <= limit,
            worktree_prefix(ps, es, iv, limit as nat, i as nat) == Ok::<WorktreeAcc, WorktreeErrorView>(
                WorktreeAcc { bytes: pre@, content: content as nat },
            ),
        decreases paths.len() - i,
    {
        let path = &paths[i];
        assert(ps[i as int] == path@);
        let gitlink = index_is_gitlink(index, path);
        push_str_bytes(&mut pre, path.as_str());
        pre.push(0);
        match &entries[i] {
            WorktreeEntry::Missing => {
                if gitlink {
                    proof {
                        lemma_worktree_error_sticks(ps, es, iv, limit as nat, (i + 1) as nat, paths@.len());
                    }
                    return Err(WorktreeScopeError::GitlinkUnavailable { path: path.clone(), repair: false });
                }
                push_tag(&mut pre, "deleted", "deleted");
            },
            WorktreeEntry::Symlink { target } => {
                push_tag(&mut pre, "120000", "symlink");
                push_bytes(&mut pre, target);
                pre.push(0);
            },
            WorktreeEntry::Directory { nested } => {
                if gitlink {
                    match nested {
                        Some(NestedCheckout::Clean { head }) => {
                            push_tag(&mut pre, "160000", "gitlink");
                            let h = crate::text::trimmed(head.as_str());
                            push_str_bytes(&mut pre, h.as_str());
                            pre.push(0);
                        },
                        Some(NestedCheckout::Dirty) => {
                            proof {
                                lemma_worktree_error_sticks(ps, es, iv, limit as nat, (i + 1) as nat, paths@.len());
                            }
                            return Err(WorktreeScopeError::GitlinkDirty { path: path.clone() });
                        },
                        Some(NestedCheckout::Unreadable) => {
                            proof {
                                lemma_worktree_error_sticks(ps, es, iv, limit as nat, (i + 1) as nat, paths@.len());
                            }
                            return Err(WorktreeScopeError::GitlinkUnavailable { path: path.clone(), repair: true });
                        },
                        _ => {
                            proof {
                                lemma_worktree_error_sticks(ps, es, iv, limit as nat, (i + 1) as nat, paths@.len());
                            }
                            return Err(WorktreeScopeError::GitlinkUnavailable { path: path.clone(), repair: false });
                        },
                    }
                } else {
                    push_tag(&mut pre, "040000", "directory");
                    pre.push(0);
                }
            },
            WorktreeEntry::File { executable, contents } => {
                if contents.len() as u64 > limit - content {
                    proof {
                        lemma_worktree_error_sticks(ps, es, iv, limit as nat, (i + 1) as nat, paths@.len());
                    }
                    return Err(WorktreeScopeError::ContentTooLarge);
                }
                content = content + contents.len() as u64;
                if *executable {
                    push_tag(&mut pre, "100755", "blob");
                } else {
                    push_tag(&mut pre, "100644", "blob");
                }
                push_bytes(&mut pre, contents);
                pre.push(0);
            },
        }
        i = i + 1;
    }
    let digest = sha256_digest(pre.as_slice());
    let mut text = "sha256:v5:".to_string();
    crate::fingerprint::push_hex(&mut text, digest.as_slice());
    Ok(text)
}

} // verus!
