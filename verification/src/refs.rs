//! References to files inside the repository: a relative path whose every
//! component is a plain name, and document references under `docs/`.
use vstd::prelude::*;
use crate::review_scope::{climbs, path_climbs};
use crate::text::chars_of;

verus! {

/// Whether a `.` component starts at `j` (`Path::components` yields it
/// only at the start of a path).
pub open spec fn cur_dir_at(p: Seq<char>, j: int) -> bool {
    0 <= j < p.len() && p[j] == '.' && (j + 1 == p.len() || p[j + 1] == '/')
}

/// A relative path made of plain names only: not absolute, not starting
/// with a `.` component, and with no `..` component.
pub open spec fn safe_relative_path(p: Seq<char>) -> bool {
    &&& !(p.len() > 0 && p[0] == '/')
    &&& !cur_dir_at(p, 0)
    &&& !climbs(p)
}

/// A document reference: a safe relative path whose first component is
/// `docs` and which has a component after it.
pub open spec fn doc_ref_valid(p: Seq<char>) -> bool {
    &&& safe_relative_path(p)
    &&& p.len() >= 4
    &&& p.take(4) == seq!['d', 'o', 'c', 's']
    &&& (p.len() == 4 || p[4] == '/')
    &&& exists|j: int| 4 < j < p.len() && p[j - 1] == '/' && #[trigger] p[j] != '/' && !cur_dir_at(p, j)
}

/// Why a reference is refused.
#[derive(Clone, Copy, Debug, PartialEq, Eq, Structural)]
pub enum RefError {
    /// The path is absolute or has a component other than a plain name.
    Unsafe,
    /// A document reference does not name a file under `docs/`.
    NotADoc,
}

fn is_safe_relative(p: &Vec<char>) -> (r: bool)
    ensures
        r == safe_relative_path(p@),
{
    let n = p.len();
    if n > 0 && p[0] == '/' {
        return false;
    }
    if n > 0 && p[0] == '.' && (n == 1 || p[1] == '/') {
        return false;
    }
    !path_climbs(p)
}

/// A repository-relative path whose every component is a plain name.
pub fn parse_safe_relative_path(path_ref: &str) -> (r: Result<String, RefError>)
    ensures
        match r {
            Ok(s) => safe_relative_path(path_ref@) && s@ == path_ref@,
            Err(e) => e == RefError::Unsafe && !safe_relative_path(path_ref@),
        },
{
    let p = chars_of(path_ref);
    if !is_safe_relative(&p) {
        return Err(RefError::Unsafe);
    }
    Ok(path_ref.to_owned())
}

/// A reference to a document: a safe relative path under `docs/` that
/// names something inside it.
pub fn parse_doc_ref(doc_ref: &str) -> (r: Result<String, RefError>)
    ensures
        match r {
            Ok(s) => doc_ref_valid(doc_ref@) && s@ == doc_ref@,
            Err(e) => !doc_ref_valid(doc_ref@) && (e == RefError::Unsafe <==> !safe_relative_path(
                doc_ref@,
            )),
        },
{
    let p = chars_of(doc_ref);
    if !is_safe_relative(&p) {
        return Err(RefError::Unsafe);
    }
    let n = p.len();
    if n < 4 || p[0] != 'd' || p[1] != 'o' || p[2] != 'c' || p[3] != 's' || (n > 4 && p[4] != '/') {
        proof {
            if p@.len() >= 4 && p@.take(4) == seq!['d', 'o', 'c', 's'] {
                assert(p@.take(4)[0] == p@[0] && p@.take(4)[1] == p@[1]);
                assert(p@.take(4)[2] == p@[2] && p@.take(4)[3] == p@[3]);
            }
        }
        return Err(RefError::NotADoc);
    }
    assert(p@.take(4) =~= seq!['d', 'o', 'c', 's']);
    if n == 4 {
        return Err(RefError::NotADoc);
    }
    let mut j: usize = 5;
    while j < n
        invariant
            5 <= j <= n,
            n == p@.len(),
            doc_ref@ == p@,
            safe_relative_path(p@),
            p@.take(4) == seq!['d', 'o', 'c', 's'],
            p@[4] == '/',
            forall|k: int|
                4 < k < j ==> !(p@[k - 1] == '/' && #[trigger] p@[k] != '/' && !cur_dir_at(p@, k)),
        decreases n - j,
    {
        if p[j - 1] == '/' && p[j] != '/' && !(p[j] == '.' && (j + 1 == n || p[j + 1] == '/')) {
            assert(4 < j < p@.len() && p@[j - 1] == '/' && p@[j as int] != '/' && !cur_dir_at(p@, j as int));
            return Ok(doc_ref.to_owned());
        }
        j = j + 1;
    }
    Err(RefError::NotADoc)
}

} // verus!
