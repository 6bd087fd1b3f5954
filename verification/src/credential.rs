//! The credential resolver: an ordered chain of non-interactive ways to
//! authenticate a push. The first that yields a credential wins.
use crate::error::{GitError, GIT_AUTH};
use crate::git;
use vstd::prelude::*;
use vstd::string::*;

verus! {

/// The kinds of authentication that a transport is willing to accept.
#[derive(Clone, Copy, Debug, PartialEq, Eq, Structural)]
pub struct AuthKinds {
    /// A user name with a password in plain text.
    pub user_pass_plaintext: bool,
    /// An SSH public key.
    pub ssh_key: bool,
}

/// One way of getting a credential without asking the user.
#[derive(Clone, Copy, Debug, PartialEq, Eq, Structural)]
pub enum CredentialStrategy {
    /// Ask the credential helpers that the configuration names.
    Helper,
    /// Ask the running SSH agent for a key.
    SshAgent,
}

/// Whether the helper strategy may be tried.
pub open spec fn helper_applies(allowed: AuthKinds) -> bool {
    allowed.user_pass_plaintext
}

/// Whether the agent strategy may be tried.
pub open spec fn agent_applies(allowed: AuthKinds, has_username: bool) -> bool {
    allowed.ssh_key && has_username
}

/// The strategies to try, in the order in which they are tried.
pub open spec fn credential_chain(allowed: AuthKinds, has_username: bool) -> Seq<
    CredentialStrategy,
> {
    let first = if helper_applies(allowed) {
        seq![CredentialStrategy::Helper]
    } else {
        Seq::<CredentialStrategy>::empty()
    };
    if agent_applies(allowed, has_username) {
        first.push(CredentialStrategy::SshAgent)
    } else {
        first
    }
}

/// What a chain of attempts yields: the outcome of the first attempt that
/// succeeded, with its position, if any did.
pub open spec fn first_success<C>(attempts: Seq<Option<C>>) -> Option<(int, C)>
    decreases attempts.len(),
{
    if attempts.len() == 0 {
        None
    } else if attempts.last() is Some && first_success(attempts.drop_last()) is None {
        Some((attempts.len() - 1, attempts.last()->0))
    } else {
        first_success(attempts.drop_last())
    }
}

/// Lists the strategies that apply, the helper before the agent.
pub fn strategies(allowed: AuthKinds, has_username: bool) -> (chain: Vec<CredentialStrategy>)
    ensures
        chain@ == credential_chain(allowed, has_username),
{
    let mut chain: Vec<CredentialStrategy> = Vec::new();
    if allowed.user_pass_plaintext {
        chain.push(CredentialStrategy::Helper);
    }
    if allowed.ssh_key && has_username {
        chain.push(CredentialStrategy::SshAgent);
    }
    assert(chain@ =~= credential_chain(allowed, has_username));
    chain
}

/// Picks the credential of the first attempt that succeeded, and says which
/// attempt that was.
pub fn select<C>(attempts: Vec<Option<C>>) -> (chosen: Option<(usize, C)>)
    ensures
        match chosen {
            Some((at, cred)) => first_success(attempts@) == Some((at as int, cred)),
            None => first_success(attempts@) is None,
        },
{
    let mut attempts = attempts;
    let ghost all = attempts@;
    let mut chosen: Option<(usize, C)> = None;
    while attempts.len() > 0
        invariant
            attempts@.len() <= all.len(),
            attempts@ == all.take(attempts@.len() as int),
            forall|i: int| attempts@.len() <= i < all.len() && all[i] is Some ==> chosen is Some,
            match chosen {
                Some((at, cred)) => {
                    &&& attempts@.len() <= at < all.len()
                    &&& all[at as int] == Some(cred)
                    &&& forall|i: int| attempts@.len() <= i < at ==> all[i] is None
                },
                None => true,
            },
        decreases attempts.len(),
    {
        let at = attempts.len() - 1;
        let last = attempts.pop();
        assert(attempts@ =~= all.take(attempts@.len() as int));
        assert(last == Some(all[at as int]));
        match last {
            Some(Some(cred)) => {
                chosen = Some((at, cred));
            },
            _ => {},
        }
    }
    proof {
        lemma_first_success_is_earliest(all);
    }
    chosen
}

/// `first_success` yields the earliest success: every attempt before it
/// failed, and none means that all failed.
pub proof fn lemma_first_success_is_earliest<C>(attempts: Seq<Option<C>>)
    ensures
        match first_success(attempts) {
            Some((at, cred)) => {
                &&& 0 <= at < attempts.len()
                &&& attempts[at] == Some(cred)
                &&& forall|i: int| 0 <= i < at ==> attempts[i] is None
            },
            None => forall|i: int| 0 <= i < attempts.len() ==> attempts[i] is None,
        },
        forall|at: int|
            0 <= at < attempts.len() && attempts[at] is Some && (forall|i: int|
                0 <= i < at ==> attempts[i] is None) ==> first_success(attempts) == Some(
                (at, attempts[at]->0),
            ),
    decreases attempts.len(),
{
    if attempts.len() > 0 {
        let front = attempts.drop_last();
        lemma_first_success_is_earliest(front);
        assert(forall|i: int| 0 <= i < front.len() ==> front[i] == attempts[i]);
        assert forall|at: int|
            0 <= at < attempts.len() && attempts[at] is Some && (forall|i: int|
                0 <= i < at ==> attempts[i] is None) implies first_success(attempts) == Some(
            (at, attempts[at]->0),
        ) by {
            if at < front.len() {
                assert(front[at] is Some);
                assert(forall|i: int| 0 <= i < at ==> front[i] is None);
            } else {
                assert(forall|i: int| 0 <= i < front.len() ==> front[i] is None);
            }
        }
    }
}

/// Both strategies apply and both yield a credential: the chain tries the
/// helper first, and its credential is the one chosen.
pub proof fn lemma_helper_wins<C>(allowed: AuthKinds, helper: C, agent: C)
    requires
        allowed.user_pass_plaintext,
        allowed.ssh_key,
    ensures
        credential_chain(allowed, true) == seq![
            CredentialStrategy::Helper,
            CredentialStrategy::SshAgent,
        ],
        first_success(seq![Some(helper), Some(agent)]) == Some((0int, helper)),
{
    assert(credential_chain(allowed, true) =~= seq![
        CredentialStrategy::Helper,
        CredentialStrategy::SshAgent,
    ]);
    lemma_first_success_is_earliest(seq![Some(helper), Some(agent)]);
}

/// What an authentication failure says.
pub const AUTHENTICATION_FAILURE: &'static str =
    "unable to authenticate, setup ssh key agent or credential helper for this remote and username";

/// The failure that ends a push once every strategy is exhausted.
pub fn authentication_failure() -> (failure: GitError)
    ensures
        failure.code == GIT_AUTH,
        failure.message@ == AUTHENTICATION_FAILURE@,
{
    GitError { code: GIT_AUTH, message: String::from_str(AUTHENTICATION_FAILURE) }
}

/// Tries one strategy; `None` where it yields no credential.
fn attempt(
    strategy: CredentialStrategy,
    config: &git2::Config,
    url: &str,
    username: Option<&str>,
) -> (cred: Option<git2::Cred>)
    ensures
        strategy == CredentialStrategy::SshAgent && username is None ==> cred is None,
{
    match strategy {
        CredentialStrategy::Helper => git::credential_helper(config, url, username).ok(),
        CredentialStrategy::SshAgent => match username {
            Some(name) => git::ssh_key_from_agent(name).ok(),
            None => None,
        },
    }
}

/// Supplies the credential for a push to `url`.
///
/// The strategies of `credential_chain` are tried in order and no further
/// than the first that succeeds; the credential returned is the one that
/// `first_success` picks among the attempts made. Where no strategy applies,
/// or all fail, the result is an authentication failure.
pub fn resolve_credential(
    config: &git2::Config,
    url: &str,
    username: Option<&str>,
    allowed: AuthKinds,
) -> (cred: Result<git2::Cred, GitError>)
    ensures
        exists|attempts: Seq<Option<git2::Cred>>|
            {
                &&& attempts.len() <= credential_chain(allowed, username is Some).len()
                &&& match cred {
                    Ok(c) => #[trigger] first_success(attempts) matches Some((_, chosen))
                        && chosen == c,
                    Err(e) => first_success(attempts) is None && e.code == GIT_AUTH,
                }
            },
        credential_chain(allowed, username is Some).len() == 0 ==> cred is Err,
{
    let chain = strategies(allowed, username.is_some());
    let mut attempts: Vec<Option<git2::Cred>> = Vec::new();
    let mut i: usize = 0;
    let mut succeeded = false;
    while i < chain.len() && !succeeded
        invariant
            i <= chain.len(),
            attempts@.len() == i,
        decreases chain.len() - i + (if succeeded { 0int } else { 1int }),
    {
        let outcome = attempt(chain[i], config, url, username);
        succeeded = outcome.is_some();
        attempts.push(outcome);
        i += 1;
    }
    let ghost tried = attempts@;
    proof {
        lemma_first_success_is_earliest(tried);
    }
    match select(attempts) {
        Some((_, cred)) => Ok(cred),
        None => Err(authentication_failure()),
    }
}

} // verus!
