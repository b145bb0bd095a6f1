//! Path confinement for user-supplied file paths.
//!
//! When files are served from a base directory, a user-controlled path
//! segment must not escape it: not through an absolute path, not through `..`
//! components, and not through a symlink pointing outside. Resolution
//! canonicalizes against the filesystem (a trusted call whose outcome depends
//! on the disk) and then confines the result with verified checks: the shape
//! screen and the containment test are exact.

use vstd::prelude::*;

use crate::text::str_eq;

verus! {

/// Why a path failed to resolve. The text of a filesystem error is carried
/// along where one occurred.
pub enum SafePathError {
    /// The base directory does not exist or is inaccessible.
    InvalidBase(String),
    /// The resolved path does not exist or is inaccessible.
    NotFound(String),
    /// The path would escape the base directory.
    PathTraversal,
}

/// A user path refused before touching the filesystem: absolute, or holding
/// a NUL character.
pub open spec fn rejected_shape(user: Seq<char>) -> bool {
    ||| user.len() > 0 && (user[0] == '/' || user[0] == '\\')
    ||| user.contains('\0')
}

/// Whether canonical path `c` lies within canonical base directory `b`: it
/// is the base itself, or continues it at a component boundary.
pub open spec fn path_within(c: Seq<char>, b: Seq<char>) -> bool {
    ||| c == b
    ||| (b == seq!['/'] && c.len() >= 1 && c[0] == '/')
    ||| (c.len() > b.len() && c.subrange(0, b.len() as int) == b && c[b.len() as int] == '/')
}

/// Screen a user path's shape before any filesystem access.
pub fn has_rejected_shape(user: &str) -> (r: bool)
    ensures
        r == rejected_shape(user@),
{
    let n = user.unicode_len();
    if n > 0 {
        let c0 = user.get_char(0);
        if c0 == '/' || c0 == '\\' {
            return true;
        }
    }
    match crate::text::find_char(user, '\0') {
        Some(_) => true,
        None => false,
    }
}

/// The exact containment test on canonical paths.
pub fn path_within_check(c: &str, b: &str) -> (r: bool)
    ensures
        r == path_within(c@, b@),
{
    let cn = c.unicode_len();
    let bn = b.unicode_len();
    if str_eq(c, b) {
        return true;
    }
    if bn == 1 && b.get_char(0) == '/' && cn >= 1 && c.get_char(0) == '/' {
        proof {
            assert(b@ =~= seq!['/']);
        }
        return true;
    }
    if cn > bn {
        let head = c.substring_char(0, bn);
        if str_eq(head, b) && c.get_char(bn) == '/' {
            return true;
        }
    }
    proof {
        if b@ == seq!['/'] {
            assert(b@.len() == 1 && b@[0] == '/');
        }
    }
    false
}

/// Relies on `std::path::Path::canonicalize`: resolves `.`, `..`, and
/// symlinks against the filesystem, failing for paths that do not exist. The
/// outcome depends on the state of the disk, so nothing is assumed of it; on
/// failure the error's text is handed back.
#[verifier::external_body]
fn canonicalize_str(path: &str) -> Result<String, String> {
    match std::path::Path::new(path).canonicalize() {
        Ok(p) => match p.into_os_string().into_string() {
            Ok(s) => Ok(s),
            Err(_) => Err(String::from("path is not valid unicode")),
        },
        Err(e) => Err(e.to_string()),
    }
}

/// Join a canonical base and a relative user path with one separator.
fn join_path(base: &str, user: &str) -> (r: String)
    ensures
        r@ == base@ + seq!['/'] + user@,
{
    let mut s = base.to_owned();
    s.append("/");
    s.append(user);
    proof {
        reveal_strlit("/");
        assert("/"@ =~= seq!['/']);
        assert(s@ =~= base@ + seq!['/'] + user@);
    }
    s
}

/// Keep a canonical path only if it lies within the canonical base.
pub fn confine(canonical: String, base: &str) -> (r: Result<String, SafePathError>)
    ensures
        path_within(canonical@, base@) ==> r == Ok::<String, SafePathError>(canonical),
        !path_within(canonical@, base@) ==> r matches Err(SafePathError::PathTraversal),
{
    if path_within_check(canonical.as_str(), base) {
        Ok(canonical)
    } else {
        Err(SafePathError::PathTraversal)
    }
}

/// Safely resolve a user-provided path within a base directory.
///
/// An absolute path or one holding a NUL character is refused before any
/// filesystem access. Otherwise the base is canonicalized (failing as
/// `InvalidBase`), the joined candidate is canonicalized (failing as
/// `NotFound`), and the result is kept only if it still lies within the
/// canonical base — so `..` components and symlinks pointing outside are
/// refused as `PathTraversal`.
pub fn safe_resolve(base: &str, user_path: &str) -> (r: Result<String, SafePathError>)
    ensures
        rejected_shape(user_path@) ==> r matches Err(SafePathError::PathTraversal),
        r matches Ok(p) ==> !rejected_shape(user_path@),
{
    if has_rejected_shape(user_path) {
        return Err(SafePathError::PathTraversal);
    }
    let canonical_base = match canonicalize_str(base) {
        Ok(s) => s,
        Err(m) => {
            return Err(SafePathError::InvalidBase(m));
        },
    };
    let candidate = join_path(canonical_base.as_str(), user_path);
    let canonical = match canonicalize_str(candidate.as_str()) {
        Ok(s) => s,
        Err(m) => {
            return Err(SafePathError::NotFound(m));
        },
    };
    confine(canonical, canonical_base.as_str())
}

} // verus!
