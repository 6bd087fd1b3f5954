use vstd::prelude::*;

verus! {

#[verifier::external_type_specification]
#[verifier::external_body]
pub struct ExIoError(std::io::Error);

/// Result code that libgit2 gives when HEAD names a branch without commits.
pub const GIT_UNBORN_BRANCH: i32 = -9;

/// Result code that libgit2 gives when authentication failed.
pub const GIT_AUTH: i32 = -16;

/// A failure reported by the git library, held as plain values.
#[derive(Debug)]
pub struct GitError {
    /// The raw result code.
    pub code: i32,
    /// The message that came with it.
    pub message: String,
}

/// Everything that can go wrong while watching or snapshotting.
#[derive(Debug)]
pub enum Error {
    /// The repository could not be read or written.
    Git(GitError),
    /// HEAD does not name a local branch.
    InvalidHead,
    /// A file could not be read or written.
    Io(std::io::Error),
    /// A configuration file is not well-formed; the text says how.
    Json(String),
}

} // verus!
