//! The calls into the git library. Each function here makes exactly one call
//! and hands the outcome back as it came, an error as the plain values it
//! carries. None of them is verified. What they return depends on the
//! repository on disk, so no contract says what it is.
use crate::credential::{resolve_credential, AuthKinds};
use crate::error::GitError;
use vstd::prelude::*;

verus! {

#[verifier::external_type_specification]
#[verifier::external_body]
pub struct ExRepository(git2::Repository);

#[verifier::external_type_specification]
#[verifier::external_body]
pub struct ExConfig(git2::Config);

#[verifier::external_type_specification]
#[verifier::external_body]
pub struct ExReference<'repo>(git2::Reference<'repo>);

#[verifier::external_type_specification]
#[verifier::external_body]
pub struct ExIndex(git2::Index);

#[verifier::external_type_specification]
#[verifier::external_body]
pub struct ExOid(git2::Oid);

#[verifier::external_type_specification]
#[verifier::external_body]
pub struct ExTree<'repo>(git2::Tree<'repo>);

#[verifier::external_type_specification]
#[verifier::external_body]
pub struct ExDiff<'repo>(git2::Diff<'repo>);

#[verifier::external_type_specification]
#[verifier::external_body]
pub struct ExSignature<'a>(git2::Signature<'a>);

#[verifier::external_type_specification]
#[verifier::external_body]
pub struct ExCommit<'repo>(git2::Commit<'repo>);

#[verifier::external_type_specification]
#[verifier::external_body]
pub struct ExRemote<'repo>(git2::Remote<'repo>);

#[verifier::external_type_specification]
#[verifier::external_body]
pub struct ExCred(git2::Cred);

/// `git2::Repository::discover`: opens the repository that holds `path`,
/// searching upwards. Nothing is claimed of the outcome.
#[verifier::external_body]
pub(crate) fn discover(path: &str) -> (opened: Result<git2::Repository, GitError>) {
    git2::Repository::discover(path).map_err(
        |e| GitError { code: e.raw_code(), message: e.message().to_owned() },
    )
}

/// `git2::Repository::path`: the path of the repository's own directory,
/// as text where it is valid text. Nothing is claimed of it.
#[verifier::external_body]
pub(crate) fn directory(repo: &git2::Repository) -> (path: Option<String>) {
    repo.path().to_str().map(|s| s.to_owned())
}

/// `git2::Repository::config`: the configuration that applies to the
/// repository. Nothing is claimed of the outcome.
#[verifier::external_body]
pub(crate) fn config(repo: &git2::Repository) -> (opened: Result<git2::Config, GitError>) {
    repo.config().map_err(|e| GitError { code: e.raw_code(), message: e.message().to_owned() })
}

/// `git2::Config::get_string`: the text stored under `key`. Nothing is
/// claimed of the outcome.
#[verifier::external_body]
pub(crate) fn config_string(config: &git2::Config, key: &str) -> (value: Result<
    String,
    GitError,
>) {
    config.get_string(key).map_err(
        |e| GitError { code: e.raw_code(), message: e.message().to_owned() },
    )
}

/// `git2::Config::get_bool`: the flag stored under `key`. Nothing is claimed
/// of the outcome.
#[verifier::external_body]
pub(crate) fn config_bool(config: &git2::Config, key: &str) -> (value: Result<bool, GitError>) {
    config.get_bool(key).map_err(
        |e| GitError { code: e.raw_code(), message: e.message().to_owned() },
    )
}

/// `git2::Repository::head`: the reference that HEAD resolves to. Nothing is
/// claimed of the outcome.
#[verifier::external_body]
pub(crate) fn head<'a>(repo: &'a git2::Repository) -> (found: Result<
    git2::Reference<'a>,
    GitError,
>) {
    repo.head().map_err(|e| GitError { code: e.raw_code(), message: e.message().to_owned() })
}

/// `git2::Repository::find_reference`: the reference of that full name.
/// Nothing is claimed of the outcome.
#[verifier::external_body]
pub(crate) fn find_reference<'a>(repo: &'a git2::Repository, name: &str) -> (found: Result<
    git2::Reference<'a>,
    GitError,
>) {
    repo.find_reference(name).map_err(
        |e| GitError { code: e.raw_code(), message: e.message().to_owned() },
    )
}

/// `git2::Reference::is_branch`: whether the reference is a local branch.
#[verifier::external_body]
pub(crate) fn is_branch(reference: &git2::Reference<'_>) -> (local: bool) {
    reference.is_branch()
}

/// `git2::Reference::is_remote`: whether the reference is a remote-tracking
/// branch.
#[verifier::external_body]
pub(crate) fn is_remote(reference: &git2::Reference<'_>) -> (remote: bool) {
    reference.is_remote()
}

/// `git2::Reference::shorthand`: the short name of the reference, where it
/// is valid text.
#[verifier::external_body]
pub(crate) fn shorthand(reference: &git2::Reference<'_>) -> (name: Option<String>) {
    reference.shorthand().ok().map(|s| s.to_owned())
}

/// `git2::Reference::symbolic_target`: the full name that a symbolic
/// reference points to, where there is one and it is valid text.
#[verifier::external_body]
pub(crate) fn symbolic_target(reference: &git2::Reference<'_>) -> (name: Option<String>) {
    reference.symbolic_target().ok().flatten().map(|s| s.to_owned())
}

/// `git2::Reference::peel_to_tree`: the tree that the reference leads to.
/// Nothing is claimed of the outcome.
#[verifier::external_body]
pub(crate) fn peel_to_tree<'a>(reference: &git2::Reference<'a>) -> (tree: Result<
    git2::Tree<'a>,
    GitError,
>) {
    reference.peel_to_tree().map_err(
        |e| GitError { code: e.raw_code(), message: e.message().to_owned() },
    )
}

/// `git2::Reference::peel_to_commit`: the commit that the reference leads
/// to. Nothing is claimed of the outcome.
#[verifier::external_body]
pub(crate) fn peel_to_commit<'a>(reference: &git2::Reference<'a>) -> (commit: Result<
    git2::Commit<'a>,
    GitError,
>) {
    reference.peel_to_commit().map_err(
        |e| GitError { code: e.raw_code(), message: e.message().to_owned() },
    )
}

/// `git2::Index::new`: a fresh index held in memory. Nothing is claimed of
/// the outcome.
#[verifier::external_body]
pub(crate) fn new_index() -> (index: Result<git2::Index, GitError>) {
    git2::Index::new().map_err(
        |e| GitError { code: e.raw_code(), message: e.message().to_owned() },
    )
}

/// `git2::Repository::set_index`: makes `index` the index of the
/// repository. Nothing is claimed of the outcome.
#[verifier::external_body]
pub(crate) fn set_index(repo: &git2::Repository, index: &mut git2::Index) -> (done: Result<
    (),
    GitError,
>) {
    repo.set_index(index).map_err(
        |e| GitError { code: e.raw_code(), message: e.message().to_owned() },
    )
}

/// `git2::Index::add_all`: stages every file of the working tree that
/// matches `pathspec` and is not ignored. Nothing is claimed of the outcome.
#[verifier::external_body]
pub(crate) fn add_all(index: &mut git2::Index, pathspec: &str) -> (done: Result<(), GitError>) {
    index.add_all([pathspec], git2::IndexAddOption::DEFAULT, None).map_err(
        |e| GitError { code: e.raw_code(), message: e.message().to_owned() },
    )
}

/// `git2::Index::len`: the number of entries staged in the index.
#[verifier::external_body]
pub(crate) fn index_len(index: &git2::Index) -> (entries: usize) {
    index.len()
}

/// `git2::Index::write_tree`: writes the index as a tree and gives the
/// tree's id. Nothing is claimed of the outcome.
#[verifier::external_body]
pub(crate) fn write_tree(index: &mut git2::Index) -> (id: Result<git2::Oid, GitError>) {
    index.write_tree().map_err(
        |e| GitError { code: e.raw_code(), message: e.message().to_owned() },
    )
}

/// `git2::Repository::find_tree`: the tree of that id. Nothing is claimed of
/// the outcome.
#[verifier::external_body]
pub(crate) fn find_tree<'a>(repo: &'a git2::Repository, id: git2::Oid) -> (tree: Result<
    git2::Tree<'a>,
    GitError,
>) {
    repo.find_tree(id).map_err(
        |e| GitError { code: e.raw_code(), message: e.message().to_owned() },
    )
}

/// `git2::Repository::diff_tree_to_tree`: the difference from `old` (the
/// empty tree where there is none) to `new`. Nothing is claimed of the
/// outcome.
#[verifier::external_body]
pub(crate) fn diff_tree_to_tree<'a>(
    repo: &'a git2::Repository,
    old: Option<&git2::Tree<'_>>,
    new: &git2::Tree<'_>,
) -> (diff: Result<git2::Diff<'a>, GitError>) {
    repo.diff_tree_to_tree(old, Some(new), None).map_err(
        |e| GitError { code: e.raw_code(), message: e.message().to_owned() },
    )
}

/// `git2::Diff::deltas`: the number of changed files in the difference.
#[verifier::external_body]
pub(crate) fn delta_count(diff: &git2::Diff<'_>) -> (changes: usize) {
    diff.deltas().len()
}

/// `git2::Repository::signature`: the identity that the repository's
/// configuration names. Nothing is claimed of the outcome.
#[verifier::external_body]
pub(crate) fn signature(repo: &git2::Repository) -> (identity: Result<
    git2::Signature<'static>,
    GitError,
>) {
    repo.signature().map_err(
        |e| GitError { code: e.raw_code(), message: e.message().to_owned() },
    )
}

/// `git2::Repository::commit`: creates a commit of `tree` on top of
/// `parent`, moves the reference `update_ref` to it and gives the commit's
/// id as text. Nothing is claimed of the outcome.
#[verifier::external_body]
pub(crate) fn commit(
    repo: &git2::Repository,
    update_ref: &str,
    identity: &git2::Signature<'_>,
    message: &str,
    tree: &git2::Tree<'_>,
    parent: Option<&git2::Commit<'_>>,
) -> (id: Result<String, GitError>) {
    let parents = parent.as_ref().map(std::slice::from_ref).unwrap_or_default();
    repo.commit(Some(update_ref), identity, identity, message, tree, parents).map(
        |id| id.to_string(),
    ).map_err(|e| GitError { code: e.raw_code(), message: e.message().to_owned() })
}

/// `git2::Repository::remotes`: the names of the configured remotes, each
/// `None` where it is not valid text. Nothing is claimed of the outcome.
#[verifier::external_body]
pub(crate) fn remotes(repo: &git2::Repository) -> (names: Result<Vec<Option<String>>, GitError>) {
    repo.remotes().map(
        |names| names.iter().map(|n| n.ok().flatten().map(|s| s.to_owned())).collect(),
    ).map_err(|e| GitError { code: e.raw_code(), message: e.message().to_owned() })
}

/// `git2::Repository::find_remote`: the remote of that name. Nothing is
/// claimed of the outcome.
#[verifier::external_body]
pub(crate) fn find_remote<'a>(repo: &'a git2::Repository, name: &str) -> (remote: Result<
    git2::Remote<'a>,
    GitError,
>) {
    repo.find_remote(name).map_err(
        |e| GitError { code: e.raw_code(), message: e.message().to_owned() },
    )
}

/// `git2::Remote::push`: pushes `refspec` to the remote; whenever the
/// transport asks for a credential, it gets what `resolve_credential`
/// answers. Nothing is claimed of the outcome.
#[verifier::external_body]
pub(crate) fn push(remote: &mut git2::Remote<'_>, refspec: &str, config: &git2::Config) -> (done:
    Result<(), GitError>) {
    let mut callbacks = git2::RemoteCallbacks::new();
    callbacks.credentials(
        |url, username, allowed| {
            let plain = allowed.is_user_pass_plaintext();
            let kinds = AuthKinds { user_pass_plaintext: plain, ssh_key: allowed.is_ssh_key() };
            resolve_credential(config, url, username, kinds).map_err(
                |e| git2::Error::new(git2::ErrorCode::Auth, git2::ErrorClass::Callback, e.message),
            )
        },
    );
    let mut options = git2::PushOptions::new();
    options.remote_callbacks(callbacks);
    remote.push(&[refspec], Some(&mut options)).map_err(
        |e| GitError { code: e.raw_code(), message: e.message().to_owned() },
    )
}

/// `git2::Cred::credential_helper`: asks the configured credential helpers
/// for a user name and password for `url`. Nothing is claimed of the outcome.
#[verifier::external_body]
pub(crate) fn credential_helper(config: &git2::Config, url: &str, username: Option<&str>) -> (cred:
    Result<git2::Cred, GitError>) {
    git2::Cred::credential_helper(config, url, username).map_err(
        |e| GitError { code: e.raw_code(), message: e.message().to_owned() },
    )
}

/// `git2::Cred::ssh_key_from_agent`: a credential that asks the running
/// SSH agent for a key of `username`. Nothing is claimed of the outcome.
#[verifier::external_body]
pub(crate) fn ssh_key_from_agent(username: &str) -> (cred: Result<git2::Cred, GitError>) {
    git2::Cred::ssh_key_from_agent(username).map_err(
        |e| GitError { code: e.raw_code(), message: e.message().to_owned() },
    )
}

/// `git2::Repository::is_path_ignored`: whether the ignore rules of the
/// repository cover `path`. Nothing is claimed of the outcome.
#[verifier::external_body]
pub(crate) fn is_path_ignored(repo: &git2::Repository, path: &str) -> (ignored: Result<
    bool,
    GitError,
>) {
    repo.is_path_ignored(path).map_err(
        |e| GitError { code: e.raw_code(), message: e.message().to_owned() },
    )
}

} // verus!
