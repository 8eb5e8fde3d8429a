//! Path patterns, through `globset`.

use globset::{Glob, GlobSet};
use vstd::prelude::*;

verus! {

/// The compiled set of path patterns of `globset`; opaque here.
#[verifier::external_type_specification]
#[verifier::external_body]
pub struct ExGlobSet(GlobSet);

/// The paths that some pattern of the set matches.
pub uninterp spec fn matched_paths(set: GlobSet) -> Set<Seq<char>>;

/// What `globset` says of one pattern and one path: whether the pattern matches
/// the whole path, or nothing where the pattern is not well formed.
pub uninterp spec fn glob_verdict(pattern: Seq<char>, path: Seq<char>) -> Option<bool>;

/// Longest pattern that is compiled on its own, in characters.
pub const MAX_PATTERN_CHARS: usize = 256;

/// `GlobSet::is_match`: whether some pattern of the set matches `path`. The set
/// does not change, so the answer depends on the set and the path alone.
#[verifier::external_body]
pub(crate) fn set_matches(set: &GlobSet, path: &str) -> (r: bool)
    ensures
        r == matched_paths(*set).contains(path@),
{
    set.is_match(path)
}

/// `Glob::new`, `Glob::compile_matcher` and `GlobMatcher::is_match`: compile one
/// pattern and match one path with it. `None` is a pattern that `Glob::new`
/// refuses. `compile_matcher` panics where the translated pattern is larger than
/// the regex engine accepts, so the length of the pattern is bounded.
#[verifier::external_body]
pub(crate) fn pattern_matches(pattern: &str, path: &str) -> (r: Option<bool>)
    requires
        pattern@.len() <= MAX_PATTERN_CHARS,
    ensures
        r == glob_verdict(pattern@, path@),
{
    match Glob::new(pattern) {
        Ok(glob) => Some(glob.compile_matcher().is_match(path)),
        Err(_) => None,
    }
}

} // verus!
