//! `init`: the skeleton of a repository.

use crate::error::GitError;
use crate::layout::{init_steps, skeleton, Step};
use vstd::prelude::*;

verus! {

/// The `init` command.
pub struct Init;

impl Init {
    /// What `init` has to do in a directory, given whether `.git` stands in
    /// it already: in that case nothing is to be touched and the answer is
    /// `AlreadyExists`.
    pub fn run(git_dir_exists: bool) -> (res: Result<Vec<Step>, GitError>)
        ensures
            if git_dir_exists {
                res matches Err(e) && e == GitError::AlreadyExists
            } else {
                res matches Ok(steps) && steps.deep_view() == init_steps()
            },
    {
        if git_dir_exists {
            Err(GitError::AlreadyExists)
        } else {
            Ok(skeleton())
        }
    }
}

} // verus!
