//! Repository-relative paths proven to be tracked.
//!
//! The advisory database lives in a git checkout. An exported record names
//! the advisory's file by a path relative to the repository root, and only
//! a tracked file may be named. The checkout is modeled by the list of its
//! tracked paths; reading that list out of git belongs to the caller.

use vstd::prelude::*;

verus! {

/// Failure to form a repository-relative path.
#[derive(Clone, Copy, PartialEq, Eq, Structural, Debug)]
pub enum GitPathError {
    /// The path is absolute, not repository-relative.
    NotRelative,
    /// The path is not tracked in the repository.
    NotTracked,
}

/// An opened advisory-database checkout: the paths git tracks in it,
/// relative to the repository root.
pub struct Repository {
    pub tracked_files: Vec<String>,
}

/// A path starting with a root separator is absolute.
pub open spec fn has_root(p: Seq<char>) -> bool {
    p.len() > 0 && p[0] == '/'
}

/// Whether a repository tracks a path.
pub open spec fn tracks(repo: &Repository, p: Seq<char>) -> bool {
    exists|i: int| 0 <= i < repo.tracked_files@.len() && #[trigger] repo.tracked_files@[i]@ == p
}

/// A path relative to the root of the git repository that is guaranteed
/// to be tracked by git.
pub struct GitPath<'a> {
    repo: &'a Repository,
    path: &'a String,
}

impl<'a> GitPath<'a> {
    /// The path this value carries.
    pub closed spec fn spec_path(&self) -> Seq<char> {
        self.path@
    }

    /// The repository this value points into.
    pub closed spec fn spec_repo(&self) -> &'a Repository {
        self.repo
    }

    /// Creates a new `GitPath`, validating that the path is relative and
    /// that the repository tracks it.
    pub fn new(repo: &'a Repository, path: &'a String) -> (r: Result<GitPath<'a>, GitPathError>)
        ensures
            r is Ok <==> !has_root(path@) && tracks(repo, path@),
            r is Ok ==> r->Ok_0.spec_path() == path@ && r->Ok_0.spec_repo() == repo,
            (r == Err::<GitPath<'a>, GitPathError>(GitPathError::NotRelative)) <==> has_root(
                path@,
            ),
            (r == Err::<GitPath<'a>, GitPathError>(GitPathError::NotTracked)) <==> (!has_root(
                path@,
            ) && !tracks(repo, path@)),
    {
        let s: &str = path.as_str();
        if s.unicode_len() > 0 && s.get_char(0) == '/' {
            return Err(GitPathError::NotRelative);
        }
        let mut i: usize = 0;
        while i < repo.tracked_files.len()
            invariant
                !has_root(path@),
                i <= repo.tracked_files@.len(),
                forall|t: int| 0 <= t < i ==> #[trigger] repo.tracked_files@[t]@ != path@,
            decreases repo.tracked_files@.len() - i,
        {
            if repo.tracked_files[i] == *path {
                proof {
                    assert(tracks(repo, path@)) by {
                        assert(repo.tracked_files@[i as int]@ == path@);
                    }
                }
                return Ok(GitPath { repo, path });
            }
            i = i + 1;
        }
        Err(GitPathError::NotTracked)
    }

    /// The tracked path, relative to the repository root.
    pub fn path(&self) -> (r: &'a String)
        ensures
            r@ == self.spec_path(),
    {
        self.path
    }

    /// The repository the path lives in.
    pub fn repository(&self) -> (r: &'a Repository)
        ensures
            r == self.spec_repo(),
    {
        self.repo
    }
}

} // verus!
