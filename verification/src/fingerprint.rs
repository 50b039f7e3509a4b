//! Fingerprints of a final-review scope: the bytes that stand for a set of
//! paths in a commit tree, hashed with SHA-256, and the cache that keeps the
//! most recently used fingerprints.
use vstd::prelude::*;
use sha2::Digest;
use crate::text::{chars_of, push_char};

verus! {

/// The SHA-256 digest of a byte sequence.
pub uninterp spec fn sha256(data: Seq<u8>) -> Seq<u8>;

/// `sha2::Sha256::digest`: the SHA-256 digest of `data`, which is 32 bytes
/// long. What the digest is, beyond its length, is left to the name.
#[verifier::external_body]
pub(crate) fn sha256_digest(data: &[u8]) -> (r: Vec<u8>)
    ensures
        r@ == sha256(data@),
        r@.len() == 32,
{
    sha2::Sha256::digest(data).to_vec()
}

// ---------------------------------------------------------------------------
// Bytes of text and numbers

/// The UTF-8 encoding of one character.
pub open spec fn utf8_char(c: char) -> Seq<u8> {
    let n = c as u32;
    if n < 0x80 {
        seq![n as u8]
    } else if n < 0x800 {
        seq![(0xC0 | (n >> 6)) as u8, (0x80 | (n & 0x3F)) as u8]
    } else if n < 0x10000 {
        seq![(0xE0 | (n >> 12)) as u8, (0x80 | ((n >> 6) & 0x3F)) as u8, (0x80 | (n & 0x3F)) as u8]
    } else {
        seq![
            (0xF0 | (n >> 18)) as u8,
            (0x80 | ((n >> 12) & 0x3F)) as u8,
            (0x80 | ((n >> 6) & 0x3F)) as u8,
            (0x80 | (n & 0x3F)) as u8,
        ]
    }
}

/// The UTF-8 encoding of a text (`str::as_bytes`).
pub open spec fn utf8_encode(s: Seq<char>) -> Seq<u8>
    decreases s.len(),
{
    if s.len() == 0 {
        Seq::empty()
    } else {
        utf8_encode(s.drop_last()) + utf8_char(s.last())
    }
}

fn push_utf8(out: &mut Vec<u8>, c: char)
    ensures
        final(out)@ == old(out)@ + utf8_char(c),
{
    let n = c as u32;
    if n < 0x80 {
        out.push(n as u8);
    } else if n < 0x800 {
        out.push((0xC0 | (n >> 6)) as u8);
        out.push((0x80 | (n & 0x3F)) as u8);
    } else if n < 0x10000 {
        out.push((0xE0 | (n >> 12)) as u8);
        out.push((0x80 | ((n >> 6) & 0x3F)) as u8);
        out.push((0x80 | (n & 0x3F)) as u8);
    } else {
        out.push((0xF0 | (n >> 18)) as u8);
        out.push((0x80 | ((n >> 12) & 0x3F)) as u8);
        out.push((0x80 | ((n >> 6) & 0x3F)) as u8);
        out.push((0x80 | (n & 0x3F)) as u8);
    }
    assert(out@ =~= old(out)@ + utf8_char(c));
}

/// Appends the UTF-8 encoding of `s`.
pub fn push_str_bytes(out: &mut Vec<u8>, s: &str)
    ensures
        final(out)@ == old(out)@ + utf8_encode(s@),
{
    let chars = chars_of(s);
    let ghost start = out@;
    let mut i: usize = 0;
    while i < chars.len()
        invariant
            i <= chars@.len(),
            chars@ == s@,
            out@ == start + utf8_encode(chars@.take(i as int)),
        decreases chars.len() - i,
    {
        assert(chars@.take(i + 1).drop_last() =~= chars@.take(i as int));
        push_utf8(out, chars[i]);
        assert(out@ =~= start + utf8_encode(chars@.take(i + 1)));
        i = i + 1;
    }
    assert(chars@.take(chars@.len() as int) =~= chars@);
}

/// The eight little-endian bytes of `n` (`u64::to_le_bytes`).
pub open spec fn le_bytes(n: u64) -> Seq<u8> {
    seq![
        (n % 0x100) as u8,
        ((n / 0x100) % 0x100) as u8,
        ((n / 0x1_0000) % 0x100) as u8,
        ((n / 0x100_0000) % 0x100) as u8,
        ((n / 0x1_0000_0000) % 0x100) as u8,
        ((n / 0x100_0000_0000) % 0x100) as u8,
        ((n / 0x1_0000_0000_0000) % 0x100) as u8,
        ((n / 0x100_0000_0000_0000) % 0x100) as u8,
    ]
}

fn push_le_u64(out: &mut Vec<u8>, n: u64)
    ensures
        final(out)@ == old(out)@ + le_bytes(n),
{
    out.push((n % 0x100) as u8);
    out.push(((n / 0x100) % 0x100) as u8);
    out.push(((n / 0x1_0000) % 0x100) as u8);
    out.push(((n / 0x100_0000) % 0x100) as u8);
    out.push(((n / 0x1_0000_0000) % 0x100) as u8);
    out.push(((n / 0x100_0000_0000) % 0x100) as u8);
    out.push(((n / 0x1_0000_0000_0000) % 0x100) as u8);
    out.push(((n / 0x100_0000_0000_0000) % 0x100) as u8);
    assert(out@ =~= old(out)@ + le_bytes(n));
}

pub open spec fn hex_digit(d: u8) -> char {
    if d < 10 {
        ((d as u32) + 48) as char
    } else {
        ((d as u32) + 87) as char
    }
}

/// Bytes written as lower-case hexadecimal, two digits each (`{:x}`).
pub open spec fn hex_text(b: Seq<u8>) -> Seq<char>
    decreases b.len(),
{
    if b.len() == 0 {
        Seq::empty()
    } else {
        hex_text(b.drop_last()).push(hex_digit(b.last() / 16)).push(hex_digit(b.last() % 16))
    }
}

fn hex_of(d: u8) -> (c: char)
    requires
        d < 16,
    ensures
        c == hex_digit(d),
{
    if d < 10 {
        ((d + 48) as u8) as char
    } else {
        ((d + 87) as u8) as char
    }
}

pub(crate) fn push_hex(out: &mut String, b: &[u8])
    ensures
        final(out)@ == old(out)@ + hex_text(b@),
{
    let ghost start = out@;
    let mut i: usize = 0;
    while i < b.len()
        invariant
            i <= b@.len(),
            out@ == start + hex_text(b@.take(i as int)),
        decreases b.len() - i,
    {
        assert(b@.take(i + 1).drop_last() =~= b@.take(i as int));
        let x = b[i];
        push_char(out, hex_of(x / 16));
        push_char(out, hex_of(x % 16));
        assert(out@ =~= start + hex_text(b@.take(i + 1)));
        i = i + 1;
    }
    assert(b@.take(b@.len() as int) =~= b@);
}

// ---------------------------------------------------------------------------
// The cache key

pub open spec fn cache_key_tag() -> Seq<u8> {
    utf8_encode("tiber-final-review-tree-cache-v1"@).push(0)
}

/// A text preceded by its byte length.
pub open spec fn framed(s: Seq<char>) -> Seq<u8> {
    le_bytes(utf8_encode(s).len() as u64) + utf8_encode(s)
}

pub open spec fn framed_list(paths: Seq<Seq<char>>) -> Seq<u8>
    decreases paths.len(),
{
    if paths.len() == 0 {
        Seq::empty()
    } else {
        framed_list(paths.drop_last()) + framed(paths.last())
    }
}

/// What the cache key hashes: a tag, the tree and scope kind, and both path
/// lists, each framed by its length.
pub open spec fn cache_key_preimage(
    tree_oid: Seq<char>,
    scope_kind: Seq<char>,
    requested: Seq<Seq<char>>,
    retained: Seq<Seq<char>>,
) -> Seq<u8> {
    cache_key_tag() + framed(tree_oid) + framed(scope_kind) + le_bytes(requested.len() as u64)
        + framed_list(requested) + le_bytes(retained.len() as u64) + framed_list(retained)
}

pub open spec fn strs(v: Seq<String>) -> Seq<Seq<char>> {
    v.map_values(|s: String| s@)
}

fn push_framed(out: &mut Vec<u8>, s: &str)
    ensures
        final(out)@ == old(out)@ + framed(s@),
{
    let mut body: Vec<u8> = Vec::new();
    push_str_bytes(&mut body, s);
    assert(body@ =~= utf8_encode(s@));
    push_le_u64(out, body.len() as u64);
    let ghost mid = out@;
    out.append(&mut body);
    assert(out@ =~= old(out)@ + framed(s@));
}

fn push_framed_list(out: &mut Vec<u8>, paths: &Vec<String>)
    ensures
        final(out)@ == old(out)@ + le_bytes(paths@.len() as u64) + framed_list(strs(paths@)),
{
    push_le_u64(out, paths.len() as u64);
    let ghost start = out@;
    let mut i: usize = 0;
    while i < paths.len()
        invariant
            i <= paths@.len(),
            out@ == start + framed_list(strs(paths@).take(i as int)),
        decreases paths.len() - i,
    {
        assert(strs(paths@).take(i + 1).drop_last() =~= strs(paths@).take(i as int));
        assert(strs(paths@).take(i + 1).last() == paths@[i as int]@);
        push_framed(out, paths[i].as_str());
        assert(out@ =~= start + framed_list(strs(paths@).take(i + 1)));
        i = i + 1;
    }
    assert(strs(paths@).take(paths@.len() as int) =~= strs(paths@));
}

/// The key under which a tree scope's fingerprint is cached: the SHA-256 of
/// its tree, scope kind and path lists.
pub fn tree_final_review_fingerprint_cache_key(
    tree_oid: &str,
    scope_kind: &str,
    requested_scope: &Vec<String>,
    retained_scope: &Vec<String>,
) -> (r: Vec<u8>)
    ensures
        r@ == sha256(
            cache_key_preimage(tree_oid@, scope_kind@, strs(requested_scope@), strs(retained_scope@)),
        ),
        r@.len() == 32,
{
    let mut pre: Vec<u8> = Vec::new();
    push_str_bytes(&mut pre, "tiber-final-review-tree-cache-v1");
    pre.push(0);
    assert(pre@ =~= cache_key_tag());
    push_framed(&mut pre, tree_oid);
    push_framed(&mut pre, scope_kind);
    push_framed_list(&mut pre, requested_scope);
    push_framed_list(&mut pre, retained_scope);
    assert(pre@ =~= cache_key_preimage(
        tree_oid@,
        scope_kind@,
        strs(requested_scope@),
        strs(retained_scope@),
    ));
    sha256_digest(pre.as_slice())
}

// ---------------------------------------------------------------------------
// The scope fingerprint

/// The most bytes of file content that a review scope may cover.
pub const FINAL_REVIEW_SCOPE_MAX_CONTENT_BYTES: u64 = 67108864;

/// One entry of a commit tree listing.
#[derive(Debug)]
pub struct TreeManifestEntry {
    pub mode: String,
    pub object_type: String,
    pub oid: String,
}

/// A path of the tree listing and its entry.
#[derive(Debug)]
pub struct TreeEntryRecord {
    pub path: String,
    pub entry: TreeManifestEntry,
}

/// The content of one blob read back from the repository.
#[derive(Debug)]
pub struct BlobContent {
    pub oid: String,
    pub bytes: Vec<u8>,
}

pub struct EntryView {
    pub path: Seq<char>,
    pub mode: Seq<char>,
    pub object_type: Seq<char>,
    pub oid: Seq<char>,
}

pub open spec fn entry_views(v: Seq<TreeEntryRecord>) -> Seq<EntryView> {
    v.map_values(
        |r: TreeEntryRecord|
            EntryView {
                path: r.path@,
                mode: r.entry.mode@,
                object_type: r.entry.object_type@,
                oid: r.entry.oid@,
            },
    )
}

pub open spec fn blob_views(v: Seq<BlobContent>) -> Seq<(Seq<char>, Seq<u8>)> {
    v.map_values(|b: BlobContent| (b.oid@, b.bytes@))
}

/// The entry listed for `path`; a later listing of a path replaces an
/// earlier one.
pub open spec fn entry_for(entries: Seq<EntryView>, path: Seq<char>) -> Option<EntryView>
    decreases entries.len(),
{
    if entries.len() == 0 {
        None
    } else if entries.last().path == path {
        Some(entries.last())
    } else {
        entry_for(entries.drop_last(), path)
    }
}

/// The content read for blob `oid`; a later read replaces an earlier one.
pub open spec fn blob_for(blobs: Seq<(Seq<char>, Seq<u8>)>, oid: Seq<char>) -> Option<Seq<u8>>
    decreases blobs.len(),
{
    if blobs.len() == 0 {
        None
    } else if blobs.last().0 == oid {
        Some(blobs.last().1)
    } else {
        blob_for(blobs.drop_last(), oid)
    }
}

/// Why a review scope cannot be fingerprinted.
#[derive(Debug, PartialEq, Eq)]
pub enum ScopeError {
    /// A path is empty or absolute.
    ScopeInvalid,
    /// The files of the scope hold more content than the limit.
    ContentTooLarge,
    /// A listed blob was not read back.
    BlobMissing,
    /// The tree holds something other than a file, symlink, directory or
    /// submodule at `path`.
    EntryUnsupported { path: String, mode: String, object_type: String },
}

pub enum ScopeErrorView {
    ScopeInvalid,
    ContentTooLarge,
    BlobMissing,
    EntryUnsupported { path: Seq<char>, mode: Seq<char>, object_type: Seq<char> },
}

impl View for ScopeError {
    type V = ScopeErrorView;

    open spec fn view(&self) -> ScopeErrorView {
        match self {
            ScopeError::ScopeInvalid => ScopeErrorView::ScopeInvalid,
            ScopeError::ContentTooLarge => ScopeErrorView::ContentTooLarge,
            ScopeError::BlobMissing => ScopeErrorView::BlobMissing,
            ScopeError::EntryUnsupported { path, mode, object_type } =>
                ScopeErrorView::EntryUnsupported {
                path: path@,
                mode: mode@,
                object_type: object_type@,
            },
        }
    }
}

/// What has been hashed so far, the paths found missing, and the content
/// bytes counted.
pub struct ScopeAcc {
    pub bytes: Seq<u8>,
    pub missing: Seq<Seq<char>>,
    pub content: nat,
}

pub open spec fn is_file_mode(mode: Seq<char>) -> bool {
    mode == "120000"@ || mode == "100644"@ || mode == "100755"@
}

/// The bytes one path adds: the path, then `deleted` twice when the tree
/// lacks it, or its mode and what it is: a submodule's commit, a directory,
/// or a file's or symlink's content.
pub open spec fn scope_step(
    acc: ScopeAcc,
    path: Seq<char>,
    entries: Seq<EntryView>,
    blobs: Seq<(Seq<char>, Seq<u8>)>,
) -> Result<ScopeAcc, ScopeErrorView> {
    if path.len() == 0 || path[0] == '/' {
        Err(ScopeErrorView::ScopeInvalid)
    } else {
        let pre = acc.bytes + utf8_encode(path).push(0);
        match entry_for(entries, path) {
            None => Ok(
                ScopeAcc {
                    bytes: pre + utf8_encode("deleted"@).push(0) + utf8_encode("deleted"@).push(0),
                    missing: acc.missing.push(path),
                    content: acc.content,
                },
            ),
            Some(e) => {
                let pre = pre + utf8_encode(e.mode).push(0);
                if e.mode == "160000"@ {
                    Ok(
                        ScopeAcc {
                            bytes: pre + utf8_encode("gitlink"@).push(0) + utf8_encode(e.oid).push(0),
                            ..acc
                        },
                    )
                } else if e.mode == "040000"@ && e.object_type == "tree"@ {
                    Ok(ScopeAcc { bytes: pre + utf8_encode("directory"@).push(0).push(0), ..acc })
                } else if is_file_mode(e.mode) && e.object_type == "blob"@ {
                    match blob_for(blobs, e.oid) {
                        None => Err(ScopeErrorView::BlobMissing),
                        Some(b) => if acc.content + b.len() > FINAL_REVIEW_SCOPE_MAX_CONTENT_BYTES {
                            Err(ScopeErrorView::ContentTooLarge)
                        } else {
                            let tag = if e.mode == "120000"@ {
                                "symlink"@
                            } else {
                                "blob"@
                            };
                            Ok(
                                ScopeAcc {
                                    bytes: pre + utf8_encode(tag).push(0) + b.push(0),
                                    missing: acc.missing,
                                    content: acc.content + b.len(),
                                },
                            )
                        },
                    }
                } else {
                    Err(
                        ScopeErrorView::EntryUnsupported {
                            path,
                            mode: e.mode,
                            object_type: e.object_type,
                        },
                    )
                }
            },
        }
    }
}

pub open spec fn scope_fold(
    paths: Seq<Seq<char>>,
    entries: Seq<EntryView>,
    blobs: Seq<(Seq<char>, Seq<u8>)>,
) -> Result<ScopeAcc, ScopeErrorView>
    decreases paths.len(),
{
    if paths.len() == 0 {
        Ok(
            ScopeAcc {
                bytes: utf8_encode("tiber-final-review-scope-v5"@).push(0),
                missing: Seq::empty(),
                content: 0,
            },
        )
    } else {
        match scope_fold(paths.drop_last(), entries, blobs) {
            Ok(acc) => scope_step(acc, paths.last(), entries, blobs),
            Err(e) => Err(e),
        }
    }
}

/// The fingerprint written for hashed scope bytes.
pub open spec fn fingerprint_text(bytes: Seq<u8>) -> Seq<char> {
    "sha256:v5:"@ + hex_text(sha256(bytes))
}

pub(crate) fn find_entry(entries: &Vec<TreeEntryRecord>, path: &String) -> (r: Option<usize>)
    ensures
        match r {
            Some(i) => i < entries@.len() && entry_for(entry_views(entries@), path@) == Some(
                entry_views(entries@)[i as int],
            ),
            None => entry_for(entry_views(entries@), path@) is None,
        },
{
    let ghost ev = entry_views(entries@);
    let mut k: usize = entries.len();
    assert(ev.take(k as int) =~= ev);
    while k > 0
        invariant
            k <= entries@.len(),
            ev == entry_views(entries@),
            entry_for(ev, path@) == entry_for(ev.take(k as int), path@),
        decreases k,
    {
        assert(ev.take(k as int).drop_last() =~= ev.take(k - 1));
        assert(ev.take(k as int).last() == ev[k - 1]);
        if entries[k - 1].path == *path {
            return Some(k - 1);
        }
        k = k - 1;
    }
    None
}

fn find_blob(blobs: &Vec<BlobContent>, oid: &String) -> (r: Option<usize>)
    ensures
        match r {
            Some(i) => i < blobs@.len() && blob_for(blob_views(blobs@), oid@) == Some(
                blobs@[i as int].bytes@,
            ),
            None => blob_for(blob_views(blobs@), oid@) is None,
        },
{
    let ghost bv = blob_views(blobs@);
    let mut k: usize = blobs.len();
    assert(bv.take(k as int) =~= bv);
    while k > 0
        invariant
            k <= blobs@.len(),
            bv == blob_views(blobs@),
            blob_for(bv, oid@) == blob_for(bv.take(k as int), oid@),
        decreases k,
    {
        assert(bv.take(k as int).drop_last() =~= bv.take(k - 1));
        assert(bv.take(k as int).last() == bv[k - 1]);
        if blobs[k - 1].oid == *oid {
            return Some(k - 1);
        }
        k = k - 1;
    }
    None
}

/// The fingerprint of a review scope: every path in order, with what the
/// tree holds there, hashed with SHA-256; and the paths the tree lacks.
pub fn scope_fingerprint(
    paths: &Vec<String>,
    entries: &Vec<TreeEntryRecord>,
    blobs: &Vec<BlobContent>,
) -> (r: Result<(Vec<String>, String), ScopeError>)
    ensures
        match scope_fold(strs(paths@), entry_views(entries@), blob_views(blobs@)) {
            Ok(acc) => r is Ok && strs(r->Ok_0.0@) == acc.missing && r->Ok_0.1@ == fingerprint_text(
                acc.bytes,
            ),
            Err(e) => r is Err && r->Err_0@ == e,
        },
{
    let ghost ps = strs(paths@);
    let ghost ev = entry_views(entries@);
    let ghost bv = blob_views(blobs@);
    let mut pre: Vec<u8> = Vec::new();
    push_str_bytes(&mut pre, "tiber-final-review-scope-v5");
    pre.push(0);
    let mut missing: Vec<String> = Vec::new();
    let mut content: u64 = 0;
    let mut i: usize = 0;
    assert(strs(missing@) =~= Seq::<Seq<char>>::empty());
    assert(scope_fold(ps.take(0), ev, bv) == Ok::<ScopeAcc, ScopeErrorView>(
        ScopeAcc { bytes: pre@, missing: strs(missing@), content: 0 },
    ));
    while i < paths.len()
        invariant
            i <= paths@.len(),
            ps == strs(paths@),
            ev == entry_views(entries@),
            bv == blob_views(blobs@),
            content <= FINAL_REVIEW_SCOPE_MAX_CONTENT_BYTES,
            scope_fold(ps.take(i as int), ev, bv) == Ok::<ScopeAcc, ScopeErrorView>(
                ScopeAcc { bytes: pre@, missing: strs(missing@), content: content as nat },
            ),
        decreases paths.len() - i,
    {
        assert(ps.take(i + 1).drop_last() =~= ps.take(i as int));
        assert(ps.take(i + 1).last() == paths@[i as int]@);
        let path = &paths[i];
        let pc = chars_of(path.as_str());
        if pc.len() == 0 || pc[0] == '/' {
            proof {
                lemma_scope_error_sticks(ps, ev, bv, i + 1, ScopeErrorView::ScopeInvalid);
            }
            return Err(ScopeError::ScopeInvalid);
        }
        push_str_bytes(&mut pre, path.as_str());
        pre.push(0);
        match find_entry(entries, path) {
            None => {
                push_str_bytes(&mut pre, "deleted");
                pre.push(0);
                push_str_bytes(&mut pre, "deleted");
                pre.push(0);
                let ghost before = strs(missing@);
                missing.push(path.clone());
                assert(strs(missing@) =~= before.push(path@));
            },
            Some(k) => {
                let e = &entries[k].entry;
                assert(ev[k as int].mode == e.mode@);
                push_str_bytes(&mut pre, e.mode.as_str());
                pre.push(0);
                if crate::text::str_eq(e.mode.as_str(), "160000") {
                    push_str_bytes(&mut pre, "gitlink");
                    pre.push(0);
                    push_str_bytes(&mut pre, e.oid.as_str());
                    pre.push(0);
                } else if crate::text::str_eq(e.mode.as_str(), "040000") && crate::text::str_eq(
                    e.object_type.as_str(),
                    "tree",
                ) {
                    push_str_bytes(&mut pre, "directory");
                    pre.push(0);
                    pre.push(0);
                } else if (crate::text::str_eq(e.mode.as_str(), "120000") || crate::text::str_eq(
                    e.mode.as_str(),
                    "100644",
                ) || crate::text::str_eq(e.mode.as_str(), "100755")) && crate::text::str_eq(
                    e.object_type.as_str(),
                    "blob",
                ) {
                    match find_blob(blobs, &e.oid) {
                        None => {
                            proof {
                                lemma_scope_error_sticks(ps, ev, bv, i + 1, ScopeErrorView::BlobMissing);
                            }
                            return Err(ScopeError::BlobMissing);
                        },
                        Some(b) => {
                            let bytes = &blobs[b].bytes;
                            if bytes.len() as u64 > FINAL_REVIEW_SCOPE_MAX_CONTENT_BYTES - content {
                                proof {
                                    lemma_scope_error_sticks(
                                        ps,
                                        ev,
                                        bv,
                                        i + 1,
                                        ScopeErrorView::ContentTooLarge,
                                    );
                                }
                                return Err(ScopeError::ContentTooLarge);
                            }
                            content = content + bytes.len() as u64;
                            if crate::text::str_eq(e.mode.as_str(), "120000") {
                                push_str_bytes(&mut pre, "symlink");
                            } else {
                                push_str_bytes(&mut pre, "blob");
                            }
                            pre.push(0);
                            let ghost mid = pre@;
                            let mut copy = bytes.clone();
                            pre.append(&mut copy);
                            pre.push(0);
                            assert(pre@ =~= mid + bytes@.push(0));
                        },
                    }
                } else {
                    let ghost err = ScopeErrorView::EntryUnsupported {
                        path: path@,
                        mode: e.mode@,
                        object_type: e.object_type@,
                    };
                    proof {
                        lemma_scope_error_sticks(ps, ev, bv, i + 1, err);
                    }
                    return Err(
                        ScopeError::EntryUnsupported {
                            path: path.clone(),
                            mode: e.mode.clone(),
                            object_type: e.object_type.clone(),
                        },
                    );
                }
            },
        }
        i = i + 1;
    }
    assert(ps.take(paths@.len() as int) =~= ps);
    let digest = sha256_digest(pre.as_slice());
    let mut text = "sha256:v5:".to_string();
    push_hex(&mut text, digest.as_slice());
    Ok((missing, text))
}

proof fn lemma_scope_error_sticks(
    paths: Seq<Seq<char>>,
    entries: Seq<EntryView>,
    blobs: Seq<(Seq<char>, Seq<u8>)>,
    n: int,
    e: ScopeErrorView,
)
    requires
        0 <= n <= paths.len(),
        scope_fold(paths.take(n), entries, blobs) == Err::<ScopeAcc, ScopeErrorView>(e),
    ensures
        scope_fold(paths, entries, blobs) == Err::<ScopeAcc, ScopeErrorView>(e),
    decreases paths.len() - n,
{
    if n < paths.len() {
        assert(paths.take(n + 1).drop_last() =~= paths.take(n));
        lemma_scope_error_sticks(paths, entries, blobs, n + 1, e);
    } else {
        assert(paths.take(n) =~= paths);
    }
}

// ---------------------------------------------------------------------------
// The fingerprint cache

/// How many scope fingerprints the cache keeps by default.
pub const FINAL_REVIEW_FINGERPRINT_CACHE_MAX_ENTRIES: usize = 256;

/// A computed scope fingerprint and the paths the tree lacked.
#[derive(Debug)]
pub struct CachedFingerprint {
    pub missing: Vec<String>,
    pub fingerprint: String,
}

pub struct CachedView {
    pub missing: Seq<Seq<char>>,
    pub fingerprint: Seq<char>,
}

impl View for CachedFingerprint {
    type V = CachedView;

    open spec fn view(&self) -> CachedView {
        CachedView { missing: strs(self.missing@), fingerprint: self.fingerprint@ }
    }
}

impl CachedFingerprint {
    pub fn duplicate(&self) -> (r: Self)
        ensures
            r@ == self@,
    {
        let mut missing: Vec<String> = Vec::new();
        let mut i: usize = 0;
        while i < self.missing.len()
            invariant
                i <= self.missing@.len(),
                missing@.len() == i,
                forall|j: int| 0 <= j < i ==> #[trigger] missing@[j]@ == self.missing@[j]@,
            decreases self.missing.len() - i,
        {
            missing.push(self.missing[i].clone());
            i = i + 1;
        }
        assert(strs(missing@) =~= strs(self.missing@));
        CachedFingerprint { missing, fingerprint: self.fingerprint.clone() }
    }
}

/// The most recently used fingerprints, least recent first, at most
/// `max_entries` of them, each under its own key.
pub struct TreeFinalReviewFingerprintCache {
    entries: Vec<(Vec<u8>, CachedFingerprint)>,
    max_entries: usize,
}

pub struct CacheView {
    pub entries: Seq<(Seq<u8>, CachedView)>,
    pub max_entries: usize,
}

impl View for TreeFinalReviewFingerprintCache {
    type V = CacheView;

    closed spec fn view(&self) -> CacheView {
        CacheView {
            entries: self.entries@.map_values(|e: (Vec<u8>, CachedFingerprint)| (e.0@, e.1@)),
            max_entries: self.max_entries,
        }
    }
}

pub open spec fn keys_distinct(e: Seq<(Seq<u8>, CachedView)>) -> bool {
    forall|i: int, j: int| 0 <= i < j < e.len() ==> #[trigger] e[i].0 != #[trigger] e[j].0
}

/// The cache holds no more than its limit, each key once.
pub open spec fn cache_wf(c: CacheView) -> bool {
    c.entries.len() <= c.max_entries && keys_distinct(c.entries)
}

pub open spec fn key_index(e: Seq<(Seq<u8>, CachedView)>, key: Seq<u8>) -> Option<int> {
    if exists|i: int| 0 <= i < e.len() && e[i].0 == key {
        Some(choose|i: int| 0 <= i < e.len() && e[i].0 == key)
    } else {
        None
    }
}

/// A hit moves the entry to the most recent end.
pub open spec fn after_lookup(c: CacheView, key: Seq<u8>) -> CacheView {
    match key_index(c.entries, key) {
        Some(i) => CacheView { entries: c.entries.remove(i).push(c.entries[i]), ..c },
        None => c,
    }
}

/// Storing adds the entry as the most recent; when the cache is full, the
/// least recently used entry leaves first. A cache of no entries keeps none.
pub open spec fn after_store(c: CacheView, key: Seq<u8>, value: CachedView) -> CacheView {
    if c.max_entries == 0 {
        c
    } else {
        let base = match key_index(c.entries, key) {
            Some(i) => c.entries.remove(i),
            None => if c.entries.len() == c.max_entries {
                c.entries.drop_first()
            } else {
                c.entries
            },
        };
        CacheView { entries: base.push((key, value)), ..c }
    }
}

/// A lookup right after a store finds the stored fingerprint, in a cache
/// that keeps any at all.
pub proof fn lemma_lookup_after_store(c: CacheView, key: Seq<u8>, value: CachedView)
    requires
        cache_wf(c),
        c.max_entries > 0,
    ensures
        ({
            let s = after_store(c, key, value);
            key_index(s.entries, key) matches Some(i) && s.entries[i].1 == value
        }),
{
    let s = after_store(c, key, value);
    let n = s.entries.len();
    let base = s.entries.drop_last();
    assert(s.entries[n - 1] == (key, value));
    assert forall|j: int| 0 <= j < n - 1 implies s.entries[j].0 != key by {
        assert(s.entries[j] == base[j]);
        match key_index(c.entries, key) {
            Some(i) => {
                assert(c.entries[i].0 == key);
                if j < i {
                    assert(base[j] == c.entries[j]);
                } else {
                    assert(base[j] == c.entries[j + 1]);
                }
            },
            None => {
                if c.entries.len() == c.max_entries {
                    assert(base[j] == c.entries[j + 1]);
                } else {
                    assert(base[j] == c.entries[j]);
                }
            },
        }
    }
    assert(0 <= n - 1 < n && s.entries[n - 1].0 == key);
    let k = choose|i: int| 0 <= i < s.entries.len() && s.entries[i].0 == key;
    assert(k == n - 1);
}

/// Least-recently-used eviction: in a cache with room for two, storing one
/// scope, then another, then using the first again and storing a third
/// leaves the first and the third; the second, least recently used, is
/// gone.
pub proof fn lemma_cache_evicts_least_recently_used(
    k1: Seq<u8>,
    k2: Seq<u8>,
    k3: Seq<u8>,
    v1: CachedView,
    v2: CachedView,
    v3: CachedView,
)
    requires
        k1 != k2,
        k2 != k3,
        k1 != k3,
    ensures
        ({
            let c0 = CacheView { entries: Seq::empty(), max_entries: 2 };
            let c1 = after_store(c0, k1, v1);
            let c2 = after_store(c1, k2, v2);
            let c3 = after_lookup(c2, k1);
            let c4 = after_store(c3, k3, v3);
            &&& c4.entries == seq![(k1, v1), (k3, v3)]
            &&& key_index(c4.entries, k2) is None
        }),
{
    let c0 = CacheView { entries: Seq::empty(), max_entries: 2 };
    assert(key_index(c0.entries, k1) is None);
    let c1 = after_store(c0, k1, v1);
    assert(c1.entries =~= seq![(k1, v1)]);
    assert(key_index(c1.entries, k2) is None) by {
        if exists|i: int| 0 <= i < c1.entries.len() && c1.entries[i].0 == k2 {
            let i = choose|i: int| 0 <= i < c1.entries.len() && c1.entries[i].0 == k2;
            assert(i == 0);
        }
    }
    let c2 = after_store(c1, k2, v2);
    assert(c2.entries =~= seq![(k1, v1), (k2, v2)]);
    assert(c2.entries[0].0 == k1);
    assert(key_index(c2.entries, k1) == Some(0int)) by {
        let i = choose|i: int| 0 <= i < c2.entries.len() && c2.entries[i].0 == k1;
        if i == 1 {
            assert(c2.entries[1].0 == k2);
        }
    }
    let c3 = after_lookup(c2, k1);
    assert(c3.entries =~= seq![(k2, v2), (k1, v1)]);
    assert(key_index(c3.entries, k3) is None) by {
        if exists|i: int| 0 <= i < c3.entries.len() && c3.entries[i].0 == k3 {
            let i = choose|i: int| 0 <= i < c3.entries.len() && c3.entries[i].0 == k3;
            assert(i == 0 || i == 1);
        }
    }
    let c4 = after_store(c3, k3, v3);
    assert(c4.entries =~= seq![(k1, v1), (k3, v3)]);
    assert(key_index(c4.entries, k2) is None) by {
        if exists|i: int| 0 <= i < c4.entries.len() && c4.entries[i].0 == k2 {
            let i = choose|i: int| 0 <= i < c4.entries.len() && c4.entries[i].0 == k2;
            assert(i == 0 || i == 1);
        }
    }
}

impl Default for TreeFinalReviewFingerprintCache {
    /// An empty cache of the default size.
    fn default() -> (r: Self)
        ensures
            r@.entries.len() == 0,
            r@.max_entries == FINAL_REVIEW_FINGERPRINT_CACHE_MAX_ENTRIES,
            cache_wf(r@),
    {
        Self::with_max_entries(FINAL_REVIEW_FINGERPRINT_CACHE_MAX_ENTRIES)
    }
}

impl TreeFinalReviewFingerprintCache {
    /// An empty cache of the default size.
    pub fn new() -> (r: Self)
        ensures
            r@.entries.len() == 0,
            r@.max_entries == FINAL_REVIEW_FINGERPRINT_CACHE_MAX_ENTRIES,
            cache_wf(r@),
    {
        Self::with_max_entries(FINAL_REVIEW_FINGERPRINT_CACHE_MAX_ENTRIES)
    }

    /// An empty cache that keeps at most `max_entries` fingerprints.
    pub fn with_max_entries(max_entries: usize) -> (r: Self)
        ensures
            r@.entries.len() == 0,
            r@.max_entries == max_entries,
            cache_wf(r@),
    {
        let r = TreeFinalReviewFingerprintCache { entries: Vec::new(), max_entries };
        assert(r@.entries =~= Seq::<(Seq<u8>, CachedView)>::empty());
        r
    }

    pub fn len(&self) -> (r: usize)
        ensures
            r == self@.entries.len(),
    {
        self.entries.len()
    }

    fn find(&self, key: &Vec<u8>) -> (r: Option<usize>)
        requires
            cache_wf(self@),
        ensures
            match r {
                Some(i) => key_index(self@.entries, key@) == Some(i as int),
                None => key_index(self@.entries, key@) is None,
            },
    {
        let ghost e = self@.entries;
        let mut i: usize = 0;
        while i < self.entries.len()
            invariant
                i <= e.len(),
                e == self@.entries,
                e.len() == self.entries@.len(),
                cache_wf(self@),
                forall|j: int| 0 <= j < i ==> e[j].0 != key@,
            decreases self.entries.len() - i,
        {
            assert(e[i as int].0 == self.entries@[i as int].0@);
            if crate::fingerprint::bytes_eq(&self.entries[i].0, key) {
                let ghost k = choose|k: int| 0 <= k < e.len() && e[k].0 == key@;
                assert(k == i) by {
                    if k != i {
                        if k < i {
                            assert(e[k].0 != key@);
                        } else {
                            assert(e[i as int].0 != e[k].0);
                        }
                    }
                }
                return Some(i);
            }
            i = i + 1;
        }
        None
    }

    /// The fingerprint cached under `key`, which becomes the most recently
    /// used.
    pub fn lookup(&mut self, key: &Vec<u8>) -> (r: Option<CachedFingerprint>)
        requires
            cache_wf(old(self)@),
        ensures
            cache_wf(final(self)@),
            final(self)@ == after_lookup(old(self)@, key@),
            match key_index(old(self)@.entries, key@) {
                Some(i) => r is Some && r->0@ == old(self)@.entries[i].1,
                None => r is None,
            },
    {
        match self.find(key) {
            None => None,
            Some(i) => {
                let ghost e = self@.entries;
                let entry = self.entries.remove(i);
                let value = entry.1.duplicate();
                self.entries.push(entry);
                assert(self@.entries =~= e.remove(i as int).push(e[i as int]));
                assert(keys_distinct(self@.entries)) by {
                    let n = self@.entries;
                    assert forall|a: int, b: int| 0 <= a < b < n.len() implies #[trigger] n[a].0
                        != #[trigger] n[b].0 by {
                        let ia = if a < i { a } else { a + 1 };
                        let ib = if b == n.len() - 1 {
                            i as int
                        } else if b < i {
                            b
                        } else {
                            b + 1
                        };
                        assert(n[a] == e[ia]);
                        assert(n[b] == e[ib]);
                        assert(ia != ib);
                    }
                }
                Some(value)
            },
        }
    }

    /// Keeps `value` under `key` as the most recently used fingerprint.
    pub fn store(&mut self, key: Vec<u8>, value: CachedFingerprint)
        requires
            cache_wf(old(self)@),
        ensures
            cache_wf(final(self)@),
            final(self)@ == after_store(old(self)@, key@, value@),
    {
        if self.max_entries == 0 {
            return;
        }
        let ghost e = self@.entries;
        match self.find(&key) {
            Some(i) => {
                self.entries.remove(i);
                assert(self@.entries =~= e.remove(i as int));
            },
            None => {
                if self.entries.len() == self.max_entries {
                    self.entries.remove(0);
                    assert(self@.entries =~= e.drop_first());
                }
            },
        }
        let ghost base = self@.entries;
        let ghost kv = key@;
        let ghost vv = value@;
        self.entries.push((key, value));
        assert(self@.entries =~= base.push((kv, vv)));
        assert(keys_distinct(self@.entries)) by {
            let n = self@.entries;
            assert forall|a: int, b: int| 0 <= a < b < n.len() implies #[trigger] n[a].0
                != #[trigger] n[b].0 by {
                if b == n.len() - 1 {
                    assert(n[a] == base[a]);
                    if base[a].0 == kv {
                        assert(e.contains(base[a])) by {
                            if key_index(e, kv) is Some {
                                let i = key_index(e, kv)->0;
                                let ia = if a < i { a } else { a + 1 };
                                assert(base[a] == e[ia]);
                            } else if base.len() < e.len() {
                                assert(base[a] == e[a + 1]);
                            } else {
                                assert(base[a] == e[a]);
                            }
                        }
                        let w = choose|w: int| 0 <= w < e.len() && e[w] == base[a];
                        assert(key_index(e, kv) is Some);
                        let i = key_index(e, kv)->0;
                        let ia = if a < i { a } else { a + 1 };
                        assert(base[a] == e[ia]);
                        assert(ia != i);
                        assert(e[ia].0 != e[i].0);
                    }
                } else {
                    assert(n[a] == base[a] && n[b] == base[b]);
                    if key_index(e, kv) is Some {
                        let i = key_index(e, kv)->0;
                        let ia = if a < i { a } else { a + 1 };
                        let ib = if b < i { b } else { b + 1 };
                        assert(base[a] == e[ia] && base[b] == e[ib]);
                    } else if base.len() < e.len() {
                        assert(base[a] == e[a + 1] && base[b] == e[b + 1]);
                    } else {
                        assert(base[a] == e[a] && base[b] == e[b]);
                    }
                }
            }
        }
    }
}

/// Whether two byte vectors are equal.
pub fn bytes_eq(a: &Vec<u8>, b: &Vec<u8>) -> (r: bool)
    ensures
        r == (a@ == b@),
{
    if a.len() != b.len() {
        return false;
    }
    let mut i: usize = 0;
    while i < a.len()
        invariant
            a@.len() == b@.len(),
            i <= a@.len(),
            forall|j: int| 0 <= j < i ==> a@[j] == b@[j],
        decreases a.len() - i,
    {
        if a[i] != b[i] {
            return false;
        }
        i = i + 1;
    }
    assert(a@ =~= b@);
    true
}

} // verus!
