//! Path resolution for the file endpoints: join a requested name onto the
//! served root, and decide, from the canonical forms the caller obtained,
//! whether the target stays inside the root. Canonicalizing itself touches
//! the filesystem and happens outside the library; the decisions about its
//! outcomes happen here, and a target that escapes the root is refused
//! whatever else holds.

use vstd::prelude::*;

use crate::errors::{FsErrorKind, HttpError};
use crate::text::find_byte;

verus! {

/// The candidate path a requested name denotes under a root: the name
/// itself when it is absolute, else the root, a slash, and the name.
pub open spec fn spec_join(root: Seq<u8>, rel: Seq<u8>) -> Seq<u8> {
    if rel.len() > 0 && rel[0] == '/' as u8 {
        rel
    } else {
        root + seq!['/' as u8] + rel
    }
}

/// Join a requested name onto the root directory.
pub fn join_path(root: &[u8], rel: &[u8]) -> (r: Vec<u8>)
    ensures
        r@ == spec_join(root@, rel@),
{
    if rel.len() > 0 && rel[0] == '/' as u8 {
        vstd::slice::slice_to_vec(rel)
    } else {
        let mut out = vstd::slice::slice_to_vec(root);
        out.push('/' as u8);
        let mut tail = vstd::slice::slice_to_vec(rel);
        out.append(&mut tail);
        assert(out@ =~= spec_join(root@, rel@));
        out
    }
}

/// Whether a canonical path lies within a canonical root: it is the root
/// itself, or extends it across a path separator. A root that itself ends
/// in a slash (the filesystem root) contains every path that extends it.
pub open spec fn is_contained(target: Seq<u8>, root: Seq<u8>) -> bool {
    ||| target == root
    ||| (target.len() > root.len() && target.subrange(0, root.len() as int) == root && (
    target[root.len() as int] == '/' as u8 || (root.len() > 0 && root.last() == '/' as u8)))
}

/// Decide containment of one canonical path in another.
pub fn is_within_root(target: &[u8], root: &[u8]) -> (r: bool)
    ensures
        r == is_contained(target@, root@),
{
    if crate::text::bytes_eq(target, root) {
        return true;
    }
    if target.len() <= root.len() {
        return false;
    }
    let head = vstd::slice::slice_subrange(target, 0, root.len());
    if !crate::text::bytes_eq(head, root) {
        return false;
    }
    if target[root.len()] == '/' as u8 {
        return true;
    }
    root.len() > 0 && root[root.len() - 1] == '/' as u8
}

/// The position of the last slash in `s`, if any.
pub open spec fn last_slash(s: Seq<u8>, i: int) -> Option<int>
    decreases i,
        when 0 <= i <= s.len()
{
    if i == 0 {
        None
    } else if s[i - 1] == '/' as u8 {
        Some(i - 1)
    } else {
        last_slash(s, i - 1)
    }
}

/// Split a candidate path at its last slash into the directory to create
/// and canonicalize, and the file name appended to it afterwards. A path
/// with no slash has no parent to check.
pub fn split_parent(candidate: &[u8]) -> (r: Option<(Vec<u8>, Vec<u8>)>)
    ensures
        match r {
            Some(pl) => {
                &&& last_slash(candidate@, candidate@.len() as int) matches Some(c)
                    && pl.0@ == candidate@.subrange(0, c) && pl.1@ == candidate@.subrange(
                    c + 1,
                    candidate@.len() as int,
                )
            },
            None => last_slash(candidate@, candidate@.len() as int) is None,
        },
{
    let mut i = candidate.len();
    while i > 0
        invariant
            0 <= i <= candidate@.len(),
            last_slash(candidate@, candidate@.len() as int) == last_slash(candidate@, i as int),
        decreases i,
    {
        if candidate[i - 1] == '/' as u8 {
            let parent = crate::text::subrange_to_vec(candidate, 0, i - 1);
            let leaf = crate::text::subrange_to_vec(candidate, i, candidate.len());
            return Some((parent, leaf));
        }
        i -= 1;
    }
    None
}

/// What resolving a read target decides, given the canonical forms of the
/// target and of the root: a missing target is a missing file, a denied one
/// is denied, any other canonicalization failure an I/O error; a canonical
/// target outside the canonical root is a traversal; what remains is the
/// path to read.
pub open spec fn spec_resolve_read(
    target_canon: Result<Seq<u8>, FsErrorKind>,
    root_canon: Result<Seq<u8>, FsErrorKind>,
) -> Result<Seq<u8>, HttpError> {
    match target_canon {
        Err(FsErrorKind::NotFound) => Err(HttpError::FileNotFound),
        Err(FsErrorKind::PermissionDenied) => Err(HttpError::PermissionDenied),
        Err(FsErrorKind::Other) => Err(HttpError::Io),
        Ok(tc) => match root_canon {
            Err(_) => Err(HttpError::Io),
            Ok(rc) => if is_contained(tc, rc) {
                Ok(tc)
            } else {
                Err(HttpError::PathTraversal)
            },
        },
    }
}

/// The value a result of canonicalizing denotes.
pub open spec fn canon_view(r: Result<Vec<u8>, FsErrorKind>) -> Result<Seq<u8>, FsErrorKind> {
    match r {
        Ok(v) => Ok(v@),
        Err(k) => Err(k),
    }
}

/// Decide a read target from the canonicalization outcomes the caller saw.
pub fn resolve_read(
    target_canon: Result<Vec<u8>, FsErrorKind>,
    root_canon: Result<Vec<u8>, FsErrorKind>,
) -> (r: Result<Vec<u8>, HttpError>)
    ensures
        match r {
            Ok(v) => spec_resolve_read(canon_view(target_canon), canon_view(root_canon)) == Ok::<
                Seq<u8>,
                HttpError,
            >(v@),
            Err(e) => spec_resolve_read(canon_view(target_canon), canon_view(root_canon))
                == Err::<Seq<u8>, HttpError>(e),
        },
{
    match target_canon {
        Err(FsErrorKind::NotFound) => Err(HttpError::FileNotFound),
        Err(FsErrorKind::PermissionDenied) => Err(HttpError::PermissionDenied),
        Err(FsErrorKind::Other) => Err(HttpError::Io),
        Ok(tc) => match root_canon {
            Err(_) => Err(HttpError::Io),
            Ok(rc) => {
                if is_within_root(tc.as_slice(), rc.as_slice()) {
                    Ok(tc)
                } else {
                    Err(HttpError::PathTraversal)
                }
            },
        },
    }
}

/// What resolving a write target decides, given the canonical forms of the
/// target's parent directory and of the root: a parent that cannot be
/// canonicalized is an I/O error; a canonical parent outside the canonical
/// root is a traversal; what remains is the parent with the file name
/// appended, the path to write.
pub open spec fn spec_resolve_write(
    parent_canon: Result<Seq<u8>, FsErrorKind>,
    root_canon: Result<Seq<u8>, FsErrorKind>,
    leaf: Seq<u8>,
) -> Result<Seq<u8>, HttpError> {
    match root_canon {
        Err(_) => Err(HttpError::Io),
        Ok(rc) => match parent_canon {
            Err(_) => Err(HttpError::Io),
            Ok(pc) => if is_contained(pc, rc) {
                Ok(pc + seq!['/' as u8] + leaf)
            } else {
                Err(HttpError::PathTraversal)
            },
        },
    }
}

/// Decide a write target from the canonicalization outcomes the caller saw.
pub fn resolve_write(
    parent_canon: Result<Vec<u8>, FsErrorKind>,
    root_canon: Result<Vec<u8>, FsErrorKind>,
    leaf: &[u8],
) -> (r: Result<Vec<u8>, HttpError>)
    ensures
        match r {
            Ok(v) => spec_resolve_write(canon_view(parent_canon), canon_view(root_canon), leaf@)
                == Ok::<Seq<u8>, HttpError>(v@),
            Err(e) => spec_resolve_write(canon_view(parent_canon), canon_view(root_canon), leaf@)
                == Err::<Seq<u8>, HttpError>(e),
        },
{
    match root_canon {
        Err(_) => Err(HttpError::Io),
        Ok(rc) => match parent_canon {
            Err(_) => Err(HttpError::Io),
            Ok(pc) => {
                if is_within_root(pc.as_slice(), rc.as_slice()) {
                    let mut out = pc;
                    out.push('/' as u8);
                    let mut tail = vstd::slice::slice_to_vec(leaf);
                    out.append(&mut tail);
                    proof {
                        assert(out@ =~= canon_view(parent_canon)->Ok_0 + seq!['/' as u8]
                            + leaf@);
                    }
                    Ok(out)
                } else {
                    Err(HttpError::PathTraversal)
                }
            },
        },
    }
}

} // verus!
