//! The ignore matcher: a compiled set of ignore-file patterns from the
//! `ignore` crate, carried through the walk as an opaque value and consulted
//! through one trusted call.

use vstd::prelude::*;
use ignore::gitignore::Gitignore;

verus! {

#[verifier::external_type_specification]
#[verifier::external_body]
pub struct ExGitignore(Gitignore);

/// What the matcher answers for a path: whether the path, taken as a
/// directory or not, is ignored. A pure function of the matcher's compiled
/// patterns and the arguments.
pub uninterp spec fn matcher_ignores(m: Gitignore, path: Seq<char>, is_dir: bool) -> bool;

/// Relies on ignore::gitignore::Gitignore::matched, which matches a path
/// against the matcher's compiled glob patterns, and on
/// ignore::Match::is_ignore, which reports whether the resulting match is an
/// ignore match. The answer depends on the matcher and the arguments alone.
#[verifier::external_body]
pub(crate) fn matcher_ignored(m: &Gitignore, path: &str, is_dir: bool) -> (r: bool)
    ensures
        r == matcher_ignores(*m, path@, is_dir),
{
    m.matched(std::path::Path::new(path), is_dir).is_ignore()
}

} // verus!
