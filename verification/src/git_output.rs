//! Reading what git prints for a final-review scope: NUL-separated path
//! lists, tree listings, and batches of blob contents.
use vstd::prelude::*;
use crate::fingerprint::{
    blob_views, entry_views, strs, utf8_encode, BlobContent, EntryView, TreeEntryRecord,
    TreeManifestEntry,
};
use crate::text::{char_vecs, chars_of, is_space, parse_unsigned, parse_unsigned_chars};

verus! {

/// `String::from_utf8`: the text whose UTF-8 encoding is `bytes`, when the
/// bytes are valid UTF-8.
#[verifier::external_body]
pub(crate) fn decode_utf8(bytes: Vec<u8>) -> (r: Option<String>)
    ensures
        match r {
            Some(s) => utf8_encode(s@) == bytes@,
            None => forall|s: Seq<char>| utf8_encode(s) != bytes@,
        },
{
    String::from_utf8(bytes).ok()
}

/// Whether `bytes` is the UTF-8 encoding of some text.
pub open spec fn is_utf8(bytes: Seq<u8>) -> bool {
    exists|s: Seq<char>| utf8_encode(s) == bytes
}

/// Why git's output cannot be read.
#[derive(Clone, Copy, Debug, PartialEq, Eq, Structural)]
pub enum GitOutputError {
    /// A listed path is not UTF-8.
    PathInvalidUtf8,
    /// More paths than the scope may hold.
    TooManyPaths { paths: usize },
    /// A tree listing record is malformed.
    TreeEntryInvalid,
    /// The blob batch does not answer the requested objects in order.
    BlobBatchInvalid,
}

// ---------------------------------------------------------------------------
// Splitting bytes

/// `b` cut at every `sep` byte (`slice::split`).
pub open spec fn split_byte(b: Seq<u8>, sep: u8) -> Seq<Seq<u8>>
    decreases b.len(),
{
    if b.len() == 0 {
        seq![Seq::empty()]
    } else {
        let parts = split_byte(b.drop_last(), sep);
        if b.last() == sep {
            parts.push(Seq::empty())
        } else {
            parts.update(parts.len() - 1, parts.last().push(b.last()))
        }
    }
}

proof fn lemma_split_byte_nonempty(b: Seq<u8>, sep: u8)
    ensures
        split_byte(b, sep).len() >= 1,
    decreases b.len(),
{
    if b.len() > 0 {
        lemma_split_byte_nonempty(b.drop_last(), sep);
    }
}

/// The pieces that are not empty.
pub open spec fn nonempty_pieces(parts: Seq<Seq<u8>>) -> Seq<Seq<u8>>
    decreases parts.len(),
{
    if parts.len() == 0 {
        Seq::empty()
    } else {
        let r = nonempty_pieces(parts.drop_last());
        if parts.last().len() > 0 {
            r.push(parts.last())
        } else {
            r
        }
    }
}

/// The records of NUL-separated output, empty ones left out.
pub open spec fn nul_records(b: Seq<u8>) -> Seq<Seq<u8>> {
    nonempty_pieces(split_byte(b, 0))
}

pub open spec fn byte_vecs(v: Seq<Vec<u8>>) -> Seq<Seq<u8>> {
    v.map_values(|x: Vec<u8>| x@)
}

/// The non-empty NUL-separated records of `b`.
pub fn split_nul_records(b: &[u8]) -> (r: Vec<Vec<u8>>)
    ensures
        byte_vecs(r@) == nul_records(b@),
{
    let mut out: Vec<Vec<u8>> = Vec::new();
    let mut piece: Vec<u8> = Vec::new();
    let mut i: usize = 0;
    proof {
        lemma_split_byte_nonempty(b@.subrange(0, 0), 0);
    }
    assert(byte_vecs(out@) =~= Seq::<Seq<u8>>::empty());
    while i < b.len()
        invariant
            i <= b@.len(),
            split_byte(b@.subrange(0, i as int), 0).len() >= 1,
            piece@ == split_byte(b@.subrange(0, i as int), 0).last(),
            byte_vecs(out@) == nonempty_pieces(split_byte(b@.subrange(0, i as int), 0).drop_last()),
        decreases b.len() - i,
    {
        let ghost before = b@.subrange(0, i as int);
        let ghost parts = split_byte(before, 0);
        let c = b[i];
        assert(b@.subrange(0, i + 1).drop_last() =~= before);
        assert(b@.subrange(0, i + 1).last() == c);
        if c == 0 {
            let ghost old_out = byte_vecs(out@);
            let mut done: Vec<u8> = Vec::new();
            std::mem::swap(&mut done, &mut piece);
            let ghost dv = done@;
            if done.len() > 0 {
                out.push(done);
                assert(byte_vecs(out@) =~= old_out.push(dv));
            }
            proof {
                let np = parts.push(Seq::empty());
                assert(np.drop_last() =~= parts);
                assert(parts.drop_last().push(parts.last()) =~= parts);
                assert(piece@ =~= np.last());
            }
        } else {
            piece.push(c);
            proof {
                let np = parts.update(parts.len() - 1, parts.last().push(c));
                assert(np.drop_last() =~= parts.drop_last());
                assert(piece@ =~= np.last());
            }
        }
        i = i + 1;
    }
    assert(b@.subrange(0, b@.len() as int) =~= b@);
    let ghost parts = split_byte(b@, 0);
    assert(parts.drop_last().push(parts.last()) =~= parts);
    if piece.len() > 0 {
        let ghost old_out = byte_vecs(out@);
        let ghost pv = piece@;
        out.push(piece);
        assert(byte_vecs(out@) =~= old_out.push(pv));
    }
    out
}

// ---------------------------------------------------------------------------
// Path lists

/// Decodes every record, or reports the first that is not UTF-8.
pub open spec fn all_utf8(records: Seq<Seq<u8>>) -> bool {
    forall|i: int| 0 <= i < records.len() ==> is_utf8(#[trigger] records[i])
}

/// The paths of a NUL-separated listing: every record must be UTF-8, and
/// there may be at most `max_paths` of them.
pub fn bounded_final_review_paths(bytes: &[u8], max_paths: usize) -> (r: Result<
    Vec<String>,
    GitOutputError,
>)
    ensures
        !all_utf8(nul_records(bytes@)) ==> r == Err::<Vec<String>, GitOutputError>(
            GitOutputError::PathInvalidUtf8,
        ),
        all_utf8(nul_records(bytes@)) && nul_records(bytes@).len() > max_paths ==> r == Err::<
            Vec<String>,
            GitOutputError,
        >(GitOutputError::TooManyPaths { paths: nul_records(bytes@).len() as usize }),
        r is Ok ==> all_utf8(nul_records(bytes@)) && nul_records(bytes@).len() <= max_paths
            && r->Ok_0@.len() == nul_records(bytes@).len() && forall|i: int|
            0 <= i < r->Ok_0@.len() ==> utf8_encode(#[trigger] r->Ok_0@[i]@) == nul_records(
                bytes@,
            )[i],
        all_utf8(nul_records(bytes@)) && nul_records(bytes@).len() <= max_paths ==> r is Ok,
{
    let records = split_nul_records(bytes);
    let ghost rs = nul_records(bytes@);
    let mut paths: Vec<String> = Vec::new();
    let mut i: usize = 0;
    let n = records.len();
    while i < n
        invariant
            i <= n,
            n == records@.len(),
            byte_vecs(records@) == rs,
            rs == nul_records(bytes@),
            paths@.len() == i,
            forall|j: int| 0 <= j < i ==> utf8_encode(#[trigger] paths@[j]@) == rs[j],
        decreases n - i,
    {
        let piece = records[i].clone();
        assert(piece@ == rs[i as int]);
        match decode_utf8(piece) {
            None => {
                assert(!is_utf8(rs[i as int]));
                return Err(GitOutputError::PathInvalidUtf8);
            },
            Some(s) => {
                paths.push(s);
            },
        }
        i = i + 1;
    }
    assert(all_utf8(rs)) by {
        assert forall|j: int| 0 <= j < rs.len() implies is_utf8(#[trigger] rs[j]) by {
            assert(utf8_encode(paths@[j]@) == rs[j]);
        }
    }
    if paths.len() > max_paths {
        return Err(GitOutputError::TooManyPaths { paths: paths.len() });
    }
    Ok(paths)
}

// ---------------------------------------------------------------------------
// Words

/// The whitespace-separated words of `s` from position `i` on, after the
/// words `done` and the partial word `cur` (`str::split_whitespace`).
pub open spec fn word_scan(s: Seq<char>, i: int, done: Seq<Seq<char>>, cur: Seq<char>) -> Seq<
    Seq<char>,
>
    decreases s.len() - i,
{
    if i < 0 || i >= s.len() {
        if cur.len() > 0 {
            done.push(cur)
        } else {
            done
        }
    } else if is_space(s[i]) {
        word_scan(s, i + 1, if cur.len() > 0 { done.push(cur) } else { done }, Seq::empty())
    } else {
        word_scan(s, i + 1, done, cur.push(s[i]))
    }
}

pub open spec fn words(s: Seq<char>) -> Seq<Seq<char>> {
    word_scan(s, 0, Seq::empty(), Seq::empty())
}

/// The `k`-th word, or nothing.
pub open spec fn word_or_empty(s: Seq<char>, k: int) -> Seq<char> {
    if 0 <= k < words(s).len() {
        words(s)[k]
    } else {
        Seq::empty()
    }
}

fn split_words(s: &[char]) -> (r: Vec<Vec<char>>)
    ensures
        char_vecs(r@) == words(s@),
{
    let mut done: Vec<Vec<char>> = Vec::new();
    let mut cur: Vec<char> = Vec::new();
    let mut i: usize = 0;
    assert(char_vecs(done@) =~= Seq::<Seq<char>>::empty());
    while i < s.len()
        invariant
            i <= s@.len(),
            words(s@) == word_scan(s@, i as int, char_vecs(done@), cur@),
        decreases s.len() - i,
    {
        if crate::text::char_is_space(s[i]) {
            if cur.len() > 0 {
                let ghost before = char_vecs(done@);
                let mut w: Vec<char> = Vec::new();
                std::mem::swap(&mut w, &mut cur);
                let ghost wv = w@;
                done.push(w);
                assert(char_vecs(done@) =~= before.push(wv));
            }
            assert(cur@ =~= Seq::<char>::empty());
        } else {
            cur.push(s[i]);
        }
        i = i + 1;
    }
    if cur.len() > 0 {
        let ghost before = char_vecs(done@);
        let ghost cv = cur@;
        done.push(cur);
        assert(char_vecs(done@) =~= before.push(cv));
    }
    done
}

fn word_at(ws: &Vec<Vec<char>>, k: usize) -> (r: String)
    ensures
        r@ == (if k < ws@.len() {
            ws@[k as int]@
        } else {
            Seq::empty()
        }),
{
    if k < ws.len() {
        crate::text::string_from_chars(ws[k].as_slice())
    } else {
        String::new()
    }
}

// ---------------------------------------------------------------------------
// Tree listings

/// The first position of byte `x` in `b` from `i` on.
pub open spec fn byte_index(b: Seq<u8>, x: u8, i: int) -> Option<int>
    decreases b.len() - i,
{
    if i < 0 || i >= b.len() {
        None
    } else if b[i] == x {
        Some(i)
    } else {
        byte_index(b, x, i + 1)
    }
}

pub(crate) fn find_byte(b: &[u8], x: u8, from: usize) -> (r: Option<usize>)
    requires
        from <= b@.len(),
    ensures
        match r {
            Some(i) => from <= i < b@.len() && byte_index(b@, x, from as int) == Some(i as int),
            None => byte_index(b@, x, from as int) is None,
        },
{
    let mut i: usize = from;
    while i < b.len()
        invariant
            from <= i <= b@.len(),
            byte_index(b@, x, from as int) == byte_index(b@, x, i as int),
        decreases b.len() - i,
    {
        if b[i] == x {
            return Some(i);
        }
        i = i + 1;
    }
    None
}

pub(crate) fn bytes_range(b: &[u8], lo: usize, hi: usize) -> (r: Vec<u8>)
    requires
        lo <= hi <= b@.len(),
    ensures
        r@ == b@.subrange(lo as int, hi as int),
{
    let mut r: Vec<u8> = Vec::new();
    let mut i: usize = lo;
    while i < hi
        invariant
            lo <= i <= hi <= b@.len(),
            r@ == b@.subrange(lo as int, i as int),
        decreases hi - i,
    {
        r.push(b[i]);
        assert(r@ =~= b@.subrange(lo as int, i + 1));
        i = i + 1;
    }
    r
}

/// What one listing record says: its path and its entry's mode, type and
/// object, the first three words before the tab.
pub open spec fn tree_record(r: Seq<u8>) -> Result<EntryView, GitOutputError> {
    match byte_index(r, 9, 0) {
        None => Err(GitOutputError::TreeEntryInvalid),
        Some(sep) => if !is_utf8(r.take(sep)) {
            Err(GitOutputError::TreeEntryInvalid)
        } else if !is_utf8(r.skip(sep + 1)) {
            Err(GitOutputError::PathInvalidUtf8)
        } else {
            let meta = decoded(r.take(sep));
            let path = decoded(r.skip(sep + 1));
            Ok(
                EntryView {
                    path,
                    mode: word_or_empty(meta, 0),
                    object_type: word_or_empty(meta, 1),
                    oid: word_or_empty(meta, 2),
                },
            )
        },
    }
}

pub open spec fn tree_listing(records: Seq<Seq<u8>>) -> Result<Seq<EntryView>, GitOutputError>
    decreases records.len(),
{
    if records.len() == 0 {
        Ok(Seq::empty())
    } else {
        match tree_listing(records.drop_last()) {
            Err(e) => Err(e),
            Ok(es) => match tree_record(records.last()) {
                Err(e) => Err(e),
                Ok(x) => Ok(es.push(x)),
            },
        }
    }
}

proof fn lemma_tree_listing_prefix_err(rs: Seq<Seq<u8>>, k: int)
    requires
        0 <= k <= rs.len(),
        tree_listing(rs.take(k)) is Err,
    ensures
        tree_listing(rs) == tree_listing(rs.take(k)),
    decreases rs.len() - k,
{
    if k == rs.len() {
        assert(rs.take(k) =~= rs);
    } else {
        assert(rs.take(k + 1).drop_last() =~= rs.take(k));
        lemma_tree_listing_prefix_err(rs, k + 1);
    }
}

/// One record of a `git ls-tree -z` listing.
fn parse_tree_record(record: &[u8]) -> (r: Result<TreeEntryRecord, GitOutputError>)
    ensures
        match r {
            Ok(e) => tree_record(record@) == Ok::<EntryView, GitOutputError>(
                entry_views(seq![e])[0],
            ),
            Err(e) => tree_record(record@) == Err::<EntryView, GitOutputError>(e),
        },
{
    let sep = match find_byte(record, 9, 0) {
        None => {
            return Err(GitOutputError::TreeEntryInvalid);
        },
        Some(sep) => sep,
    };
    let n = record.len();
    let meta_bytes = bytes_range(record, 0, sep);
    let path_bytes = bytes_range(record, sep + 1, n);
    assert(meta_bytes@ =~= record@.take(sep as int));
    assert(path_bytes@ =~= record@.skip(sep + 1));
    let meta = match decode_utf8(meta_bytes) {
        None => {
            return Err(GitOutputError::TreeEntryInvalid);
        },
        Some(m) => m,
    };
    let path = match decode_utf8(path_bytes) {
        None => {
            proof {
                lemma_decoded(meta@, record@.take(sep as int));
            }
            return Err(GitOutputError::PathInvalidUtf8);
        },
        Some(p) => p,
    };
    proof {
        lemma_decoded(meta@, record@.take(sep as int));
        lemma_decoded(path@, record@.skip(sep + 1));
    }
    let mc = chars_of(meta.as_str());
    let ws = split_words(mc.as_slice());
    let mode = word_at(&ws, 0);
    let object_type = word_at(&ws, 1);
    let oid = word_at(&ws, 2);
    let e = TreeEntryRecord { path, entry: TreeManifestEntry { mode, object_type, oid } };
    assert(entry_views(seq![e])[0] == tree_record(record@)->Ok_0);
    Ok(e)
}

/// The entries of a `git ls-tree -z` listing, in listing order: each
/// record is `<mode> <type> <object>` and a tab before the path.
pub fn parse_tree_listing(bytes: &[u8]) -> (r: Result<Vec<TreeEntryRecord>, GitOutputError>)
    ensures
        match r {
            Ok(es) => tree_listing(nul_records(bytes@)) == Ok::<Seq<EntryView>, GitOutputError>(
                entry_views(es@),
            ),
            Err(e) => tree_listing(nul_records(bytes@)) == Err::<Seq<EntryView>, GitOutputError>(
                e,
            ),
        },
{
    let records = split_nul_records(bytes);
    let ghost rs = nul_records(bytes@);
    let mut out: Vec<TreeEntryRecord> = Vec::new();
    let mut i: usize = 0;
    assert(rs.take(0) =~= Seq::<Seq<u8>>::empty());
    assert(entry_views(out@) =~= Seq::<EntryView>::empty());
    while i < records.len()
        invariant
            i <= records@.len(),
            byte_vecs(records@) == rs,
            rs == nul_records(bytes@),
            tree_listing(rs.take(i as int)) == Ok::<Seq<EntryView>, GitOutputError>(
                entry_views(out@),
            ),
        decreases records.len() - i,
    {
        assert(records@[i as int]@ == rs[i as int]);
        assert(rs.take(i + 1).drop_last() =~= rs.take(i as int));
        assert(rs.take(i + 1).last() == rs[i as int]);
        match parse_tree_record(records[i].as_slice()) {
            Err(e) => {
                proof {
                    lemma_tree_listing_prefix_err(rs, i + 1);
                }
                return Err(e);
            },
            Ok(e) => {
                let ghost before = entry_views(out@);
                out.push(e);
                assert(entry_views(out@) =~= before.push(entry_views(seq![e])[0]));
            },
        }
        i = i + 1;
    }
    assert(rs.take(i as int) =~= rs);
    Ok(out)
}

// ---------------------------------------------------------------------------
// Blob batches

/// The word `blob`.
pub open spec fn blob_word() -> Seq<char> {
    seq!['b', 'l', 'o', 'b']
}

/// What the object header at `cursor` announces, when it is well formed:
/// the position of its newline, the object id and the content size.
pub open spec fn batch_header(out: Seq<u8>, cursor: int) -> Option<(int, Seq<char>, nat)> {
    match byte_index(out, 10, cursor) {
        None => None,
        Some(he) => {
            let header = out.subrange(cursor, he);
            if !is_utf8(header) {
                None
            } else {
                let h = decoded(header);
                let ws = words(h);
                if ws.len() < 3 || word_or_empty(h, 1) != blob_word() {
                    None
                } else {
                    match parse_unsigned(ws[2], usize::MAX as nat) {
                        None => None,
                        Some(size) => Some((he, word_or_empty(h, 0), size)),
                    }
                }
            }
        },
    }
}

/// The objects of `git cat-file --batch` output read from `cursor` on, one
/// for each requested object id in order: a header
/// `<object> blob <size>`, a newline, the content, and a newline; the
/// output must end right after the last object.
pub open spec fn blob_batch(req: Seq<Seq<char>>, out: Seq<u8>, cursor: int) -> Option<
    Seq<(Seq<char>, Seq<u8>)>,
>
    decreases req.len(),
{
    if req.len() == 0 {
        if cursor == out.len() {
            Some(Seq::empty())
        } else {
            None
        }
    } else {
        match batch_header(out, cursor) {
            None => None,
            Some((he, oid, size)) => {
                let start = he + 1;
                let end = start + size;
                if oid != req[0] || end >= out.len() || out[end] != 10 {
                    None
                } else {
                    match blob_batch(req.drop_first(), out, end + 1) {
                        None => None,
                        Some(rest) => Some(seq![(oid, out.subrange(start, end))] + rest),
                    }
                }
            },
        }
    }
}

pub open spec fn prepend_blobs(
    acc: Seq<(Seq<char>, Seq<u8>)>,
    r: Option<Seq<(Seq<char>, Seq<u8>)>>,
) -> Option<Seq<(Seq<char>, Seq<u8>)>> {
    match r {
        None => None,
        Some(rest) => Some(acc + rest),
    }
}

fn is_blob_word(w: &Vec<char>) -> (r: bool)
    ensures
        r == (w@ == blob_word()),
{
    let r = w.len() == 4 && w[0] == 'b' && w[1] == 'l' && w[2] == 'o' && w[3] == 'b';
    assert(r ==> w@ =~= blob_word());
    r
}

/// Reads the header at `cursor`.
fn read_batch_header(out: &[u8], cursor: usize) -> (r: Option<(usize, String, usize)>)
    requires
        cursor <= out@.len(),
    ensures
        match r {
            None => batch_header(out@, cursor as int) is None,
            Some((he, oid, size)) => batch_header(out@, cursor as int) == Some(
                (he as int, oid@, size as nat),
            ) && cursor <= he < out@.len(),
        },
{
    let he = match find_byte(out, 10, cursor) {
        None => {
            return None;
        },
        Some(he) => he,
    };
    let header_bytes = bytes_range(out, cursor, he);
    let header = match decode_utf8(header_bytes) {
        None => {
            return None;
        },
        Some(h) => h,
    };
    proof {
        lemma_decoded(header@, out@.subrange(cursor as int, he as int));
    }
    let hc = chars_of(header.as_str());
    let ws = split_words(hc.as_slice());
    if ws.len() < 3 || !is_blob_word(&ws[1]) {
        return None;
    }
    let size = match parse_unsigned_chars(ws[2].as_slice(), usize::MAX as u64) {
        None => {
            return None;
        },
        Some(v) => v as usize,
    };
    let oid = word_at(&ws, 0);
    Some((he, oid, size))
}

proof fn lemma_prepend_push(
    acc: Seq<(Seq<char>, Seq<u8>)>,
    x: (Seq<char>, Seq<u8>),
    r: Option<Seq<(Seq<char>, Seq<u8>)>>,
)
    ensures
        prepend_blobs(acc, match r {
            None => None,
            Some(rest) => Some(seq![x] + rest),
        }) == prepend_blobs(acc.push(x), r),
{
    match r {
        None => {},
        Some(rest) => {
            assert(acc + (seq![x] + rest) =~= acc.push(x) + rest);
        },
    }
}

/// The objects of a `git cat-file --batch` answer to `requested`, each
/// with its content, in request order.
pub fn parse_blob_batch(requested: &Vec<String>, out: &[u8]) -> (r: Result<
    Vec<BlobContent>,
    GitOutputError,
>)
    ensures
        match r {
            Ok(bs) => blob_batch(strs(requested@), out@, 0) == Some(blob_views(bs@)),
            Err(e) => e == GitOutputError::BlobBatchInvalid && blob_batch(
                strs(requested@),
                out@,
                0,
            ) is None,
        },
{
    let ghost req = strs(requested@);
    let mut blobs: Vec<BlobContent> = Vec::new();
    let mut cursor: usize = 0;
    let mut i: usize = 0;
    let n = out.len();
    assert(req.skip(0) =~= req);
    assert(blob_views(blobs@) =~= Seq::<(Seq<char>, Seq<u8>)>::empty());
    assert(blob_batch(req, out@, 0) == prepend_blobs(blob_views(blobs@), blob_batch(req.skip(0), out@, 0))) by {
        match blob_batch(req, out@, 0) {
            None => {},
            Some(x) => {
                assert(Seq::<(Seq<char>, Seq<u8>)>::empty() + x =~= x);
            },
        }
    }
    while i < requested.len()
        invariant
            i <= requested@.len(),
            req == strs(requested@),
            n == out@.len(),
            cursor <= n,
            blob_batch(req, out@, 0) == prepend_blobs(
                blob_views(blobs@),
                blob_batch(req.skip(i as int), out@, cursor as int),
            ),
        decreases requested.len() - i,
    {
        let ghost rest = req.skip(i as int);
        assert(rest.len() > 0);
        assert(rest[0] == requested@[i as int]@);
        assert(rest.drop_first() =~= req.skip(i + 1));
        let (he, oid, size) = match read_batch_header(out, cursor) {
            None => {
                return Err(GitOutputError::BlobBatchInvalid);
            },
            Some(h) => h,
        };
        if !crate::text::str_eq(oid.as_str(), requested[i].as_str()) {
            return Err(GitOutputError::BlobBatchInvalid);
        }
        let start = he + 1;
        let end = match start.checked_add(size) {
            None => {
                return Err(GitOutputError::BlobBatchInvalid);
            },
            Some(e) => e,
        };
        if end >= n || out[end] != 10 {
            return Err(GitOutputError::BlobBatchInvalid);
        }
        let content = bytes_range(out, start, end);
        let ghost x = (oid@, content@);
        proof {
            lemma_prepend_push(blob_views(blobs@), x, blob_batch(req.skip(i + 1), out@, end + 1));
        }
        let ghost before = blob_views(blobs@);
        blobs.push(BlobContent { oid, bytes: content });
        assert(blob_views(blobs@) =~= before.push(x));
        cursor = end + 1;
        i = i + 1;
    }
    assert(req.skip(i as int) =~= Seq::<Seq<char>>::empty());
    if cursor != n {
        return Err(GitOutputError::BlobBatchInvalid);
    }
    proof {
        assert(blob_views(blobs@) + Seq::<(Seq<char>, Seq<u8>)>::empty() =~= blob_views(blobs@));
    }
    Ok(blobs)
}

// ---------------------------------------------------------------------------
// Pathspec magic

/// The word `attr:`.
pub open spec fn attr_word() -> Seq<char> {
    seq!['a', 't', 't', 'r', ':']
}

/// The first position of `c` in `s`.
pub open spec fn char_index(s: Seq<char>, c: char) -> Option<int> {
    if exists|i: int| 0 <= i < s.len() && s[i] == c {
        Some(choose|i: int| 0 <= i < s.len() && s[i] == c && forall|j: int| 0 <= j < i ==> s[j] != c)
    } else {
        None
    }
}

/// Whether one of the comma-separated components of `magic` begins with
/// `attr:`.
pub open spec fn magic_has_attr(magic: Seq<char>) -> bool {
    exists|j: int|
        0 <= j && j + 5 <= magic.len() && (j == 0 || magic[j - 1] == ',') && #[trigger] magic.subrange(
            j,
            j + 5,
        ) == attr_word()
}

/// Whether a pathspec `:(<magic>)...` names the `attr:` magic: the text
/// between `:(` and the first `)` after it holds a component that begins
/// with `attr:`.
pub open spec fn pathspec_uses_attributes(p: Seq<char>) -> bool {
    &&& p.len() >= 2
    &&& p[0] == ':'
    &&& p[1] == '('
    &&& match char_index(p.skip(2), ')') {
        None => false,
        Some(k) => magic_has_attr(p.skip(2).take(k)),
    }
}

/// Whether a pathspec names the `attr:` magic.
pub fn final_review_pathspec_uses_attributes(pathspec: &str) -> (r: bool)
    ensures
        r == pathspec_uses_attributes(pathspec@),
{
    let p = chars_of(pathspec);
    let n = p.len();
    if n < 2 || p[0] != ':' || p[1] != '(' {
        return false;
    }
    let ghost rest = p@.skip(2);
    let mut close: usize = 2;
    while close < n && p[close] != ')'
        invariant
            2 <= close <= n,
            n == p@.len(),
            rest == p@.skip(2),
            forall|j: int| 0 <= j < close - 2 ==> rest[j] != ')',
        decreases n - close,
    {
        close = close + 1;
    }
    if close == n {
        assert(!exists|i: int| 0 <= i < rest.len() && rest[i] == ')') by {
            assert forall|i: int| 0 <= i < rest.len() implies rest[i] != ')' by {
                assert(rest[i] == p@[i + 2]);
            }
        }
        return false;
    }
    let ghost k = close - 2;
    proof {
        assert(rest[k] == ')');
        let c = choose|i: int| 0 <= i < rest.len() && rest[i] == ')' && forall|j: int| 0 <= j < i ==> rest[j] != ')';
        assert(0 <= k < rest.len() && rest[k] == ')' && forall|j: int| 0 <= j < k ==> rest[j] != ')');
        assert(c == k) by {
            if c < k {
                assert(rest[c] != ')');
            } else if c > k {
                assert(rest[k] != ')');
            }
        }
    }
    let ghost magic = rest.take(k);
    let mut j: usize = 2;
    let mut found = false;
    while close - j >= 5 && !found
        invariant
            2 <= j <= close,
            close < n,
            n == p@.len(),
            magic == p@.subrange(2, close as int),
            found ==> magic_has_attr(magic),
            !found ==> forall|m: int|
                0 <= m < j - 2 && m + 5 <= magic.len() && (m == 0 || magic[m - 1] == ',')
                    ==> #[trigger] magic.subrange(m, m + 5) != attr_word(),
        decreases close + 1 - j, if found { 0int } else { 1int },
    {
        if (j == 2 || p[j - 1] == ',') && p[j] == 'a' && p[j + 1] == 't' && p[j + 2] == 't'
            && p[j + 3] == 'r' && p[j + 4] == ':' {
            let ghost m = j - 2;
            assert(magic.subrange(m, m + 5) =~= attr_word());
            found = true;
        } else {
            proof {
                let m = j - 2;
                if m + 5 <= magic.len() && (m == 0 || magic[m - 1] == ',') {
                    if magic.subrange(m, m + 5) == attr_word() {
                        assert(magic.subrange(m, m + 5)[0] == p@[j as int]);
                        assert(magic.subrange(m, m + 5)[1] == p@[j + 1]);
                        assert(magic.subrange(m, m + 5)[2] == p@[j + 2]);
                        assert(magic.subrange(m, m + 5)[3] == p@[j + 3]);
                        assert(magic.subrange(m, m + 5)[4] == p@[j + 4]);
                    }
                }
            }
            j = j + 1;
        }
    }
    if !found {
        assert(!magic_has_attr(magic)) by {
            if magic_has_attr(magic) {
                let m = choose|m: int|
                    0 <= m && m + 5 <= magic.len() && (m == 0 || magic[m - 1] == ',') && #[trigger] magic.subrange(m, m + 5) == attr_word();
                assert(m < j - 2);
            }
        }
    }
    found
}

/// A text is determined by its UTF-8 encoding.
pub proof fn lemma_utf8_encode_unique(a: Seq<char>, b: Seq<char>)
    requires
        utf8_encode(a) == utf8_encode(b),
    ensures
        a == b,
    decreases a.len() + b.len(),
{
    if a.len() == 0 || b.len() == 0 {
        if a.len() > 0 {
            lemma_utf8_len_positive(a);
        }
        if b.len() > 0 {
            lemma_utf8_len_positive(b);
        }
        assert(a =~= b);
    } else {
        lemma_last_char_unique(a, b);
        lemma_utf8_encode_unique(a.drop_last(), b.drop_last());
        assert(a =~= b.drop_last().push(b.last()));
    }
}

/// The text that `bytes` encode, when there is one.
pub open spec fn decoded(bytes: Seq<u8>) -> Seq<char> {
    choose|s: Seq<char>| utf8_encode(s) == bytes
}

pub(crate) proof fn lemma_decoded(s: Seq<char>, bytes: Seq<u8>)
    requires
        utf8_encode(s) == bytes,
    ensures
        is_utf8(bytes),
        decoded(bytes) == s,
{
    assert(is_utf8(bytes));
    lemma_utf8_encode_unique(decoded(bytes), s);
}

proof fn lemma_utf8_len_positive(a: Seq<char>)
    requires
        a.len() > 0,
    ensures
        utf8_encode(a).len() > 0,
{
    assert(crate::fingerprint::utf8_char(a.last()).len() > 0);
}

proof fn lemma_last_char_unique(a: Seq<char>, b: Seq<char>)
    requires
        a.len() > 0,
        b.len() > 0,
        utf8_encode(a) == utf8_encode(b),
    ensures
        a.last() == b.last(),
        utf8_encode(a.drop_last()) == utf8_encode(b.drop_last()),
{
    let ea = crate::fingerprint::utf8_char(a.last());
    let eb = crate::fingerprint::utf8_char(b.last());
    let full = utf8_encode(a);
    lemma_char_encoding_tail(a.last());
    lemma_char_encoding_tail(b.last());
    // The last character's encoding is the run from the last lead byte on.
    assert(full == utf8_encode(a.drop_last()) + ea);
    assert(full == utf8_encode(b.drop_last()) + eb);
    lemma_lead_position(utf8_encode(a.drop_last()), ea, utf8_encode(b.drop_last()), eb);
    lemma_char_encoding_injective(a.last(), b.last());
    assert(utf8_encode(a.drop_last()) =~= full.take(full.len() - ea.len()));
    assert(utf8_encode(b.drop_last()) =~= full.take(full.len() - eb.len()));
}

/// The first byte of a character's encoding is not a continuation byte;
/// every other byte is.
pub open spec fn is_continuation(x: u8) -> bool {
    x & 0xC0 == 0x80
}

proof fn lemma_char_encoding_tail(c: char)
    ensures
        !is_continuation(crate::fingerprint::utf8_char(c)[0]),
        forall|i: int|
            1 <= i < crate::fingerprint::utf8_char(c).len() ==> is_continuation(
                #[trigger] crate::fingerprint::utf8_char(c)[i],
            ),
        1 <= crate::fingerprint::utf8_char(c).len() <= 4,
{
    let n = c as u32;
    assert(n <= 0x10FFFF);
    if n < 0x80 {
        assert((n as u8) & 0xC0 != 0x80) by (bit_vector)
            requires
                n < 0x80,
        ;
    } else if n < 0x800 {
        assert(((0xC0 | (n >> 6)) as u8) & 0xC0 != 0x80) by (bit_vector)
            requires
                0x80 <= n < 0x800,
        ;
        assert(((0x80 | (n & 0x3F)) as u8) & 0xC0 == 0x80) by (bit_vector);
    } else if n < 0x10000 {
        assert(((0xE0 | (n >> 12)) as u8) & 0xC0 != 0x80) by (bit_vector)
            requires
                0x800 <= n < 0x10000,
        ;
        assert(((0x80 | ((n >> 6) & 0x3F)) as u8) & 0xC0 == 0x80) by (bit_vector);
        assert(((0x80 | (n & 0x3F)) as u8) & 0xC0 == 0x80) by (bit_vector);
    } else {
        assert(((0xF0 | (n >> 18)) as u8) & 0xC0 != 0x80) by (bit_vector)
            requires
                0x10000 <= n <= 0x10FFFF,
        ;
        assert(((0x80 | ((n >> 12) & 0x3F)) as u8) & 0xC0 == 0x80) by (bit_vector);
        assert(((0x80 | ((n >> 6) & 0x3F)) as u8) & 0xC0 == 0x80) by (bit_vector);
        assert(((0x80 | (n & 0x3F)) as u8) & 0xC0 == 0x80) by (bit_vector);
    }
}

proof fn lemma_lead_position(pa: Seq<u8>, ea: Seq<u8>, pb: Seq<u8>, eb: Seq<u8>)
    requires
        pa + ea == pb + eb,
        1 <= ea.len(),
        1 <= eb.len(),
        !is_continuation(ea[0]),
        !is_continuation(eb[0]),
        forall|i: int| 1 <= i < ea.len() ==> is_continuation(#[trigger] ea[i]),
        forall|i: int| 1 <= i < eb.len() ==> is_continuation(#[trigger] eb[i]),
    ensures
        ea == eb,
{
    let full = pa + ea;
    assert(full.len() == pa.len() + ea.len());
    assert((pb + eb).len() == pb.len() + eb.len());
    if ea.len() < eb.len() {
        let k = eb.len() - ea.len();
        assert(full[pa.len() as int] == ea[0]);
        assert(full[pb.len() + k] == eb[k]);
        assert(pb.len() + k == pa.len());
    } else if eb.len() < ea.len() {
        let k = ea.len() - eb.len();
        assert(full[pb.len() as int] == eb[0]);
        assert(full[pa.len() + k] == ea[k]);
        assert(pa.len() + k == pb.len());
    }
    assert(ea =~= full.skip(pa.len() as int));
    assert(eb =~= full.skip(pb.len() as int));
}

proof fn lemma_char_encoding_injective(a: char, b: char)
    requires
        crate::fingerprint::utf8_char(a) == crate::fingerprint::utf8_char(b),
    ensures
        a == b,
{
    let x = a as u32;
    let y = b as u32;
    assert(x <= 0x10FFFF && y <= 0x10FFFF);
    let ea = crate::fingerprint::utf8_char(a);
    let eb = crate::fingerprint::utf8_char(b);
    if x < 0x80 {
        if y < 0x80 {
            assert(ea[0] == eb[0]);
            assert((x as u8) == (y as u8) ==> x == y) by (bit_vector)
                requires
                    x < 0x80,
                    y < 0x80,
            ;
        } else {
            assert(ea.len() != eb.len());
        }
    } else if x < 0x800 {
        assert(ea.len() == 2 && eb.len() == 2);
        assert(ea[0] == eb[0] && ea[1] == eb[1]);
        assert(0x80 <= y < 0x800);
        assert(((0xC0 | (x >> 6)) as u8) == ((0xC0 | (y >> 6)) as u8) && ((0x80 | (x & 0x3F))
            as u8) == ((0x80 | (y & 0x3F)) as u8) ==> x == y) by (bit_vector)
            requires
                0x80 <= x < 0x800,
                0x80 <= y < 0x800,
        ;
    } else if x < 0x10000 {
        assert(ea.len() == 3 && eb.len() == 3);
        assert(ea[0] == eb[0] && ea[1] == eb[1] && ea[2] == eb[2]);
        assert(0x800 <= y < 0x10000);
        assert(((0xE0 | (x >> 12)) as u8) == ((0xE0 | (y >> 12)) as u8) && ((0x80 | ((x >> 6)
            & 0x3F)) as u8) == ((0x80 | ((y >> 6) & 0x3F)) as u8) && ((0x80 | (x & 0x3F)) as u8)
            == ((0x80 | (y & 0x3F)) as u8) ==> x == y) by (bit_vector)
            requires
                0x800 <= x < 0x10000,
                0x800 <= y < 0x10000,
        ;
    } else {
        assert(ea.len() == 4 && eb.len() == 4);
        assert(ea[0] == eb[0] && ea[1] == eb[1] && ea[2] == eb[2] && ea[3] == eb[3]);
        assert(0x10000 <= y <= 0x10FFFF);
        assert(((0xF0 | (x >> 18)) as u8) == ((0xF0 | (y >> 18)) as u8) && ((0x80 | ((x >> 12)
            & 0x3F)) as u8) == ((0x80 | ((y >> 12) & 0x3F)) as u8) && ((0x80 | ((x >> 6) & 0x3F))
            as u8) == ((0x80 | ((y >> 6) & 0x3F)) as u8) && ((0x80 | (x & 0x3F)) as u8) == ((0x80
            | (y & 0x3F)) as u8) ==> x == y) by (bit_vector)
            requires
                0x10000 <= x <= 0x10FFFF,
                0x10000 <= y <= 0x10FFFF,
        ;
    }
}

} // verus!
