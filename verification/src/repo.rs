//! The snapshot engine: turns the working tree of a repository into a commit
//! on a dedicated snapshot branch, unless nothing changed, and pushes that
//! branch to the remotes that ask for it.
use crate::error::{Error, GitError, GIT_UNBORN_BRANCH};
use crate::git;
use crate::util::{
    branch_ref_shorthand, branch_shorthand, chars_of, context_pairs, expand, expanded,
    first_present,
    lemma_first_present_single, lemma_first_present_text, option_texts, pick_first, ConfigLookup,
    ConfigValue, BRANCH_REF_PREFIX,
};
use vstd::prelude::*;
use vstd::string::*;

verus! {

/// The variable that stands for the current branch in a branch template.
pub const BRANCH_SUB_KEY: &'static str = "BRANCH";

/// The snapshot branch template that applies where none is configured.
pub const DEFAULT_SNAPSHOT_BRANCH: &'static str = "snapshot/${BRANCH}";

/// The commit message that applies where none is configured.
pub const DEFAULT_SNAPSHOT_COMMIT_MESSAGE: &'static str = "Snapshot";

/// The name of a setting inside a named subsection: `section.name.setting`.
pub open spec fn setting_key(section: Seq<char>, name: Seq<char>, setting: Seq<char>) -> Seq<
    char,
> {
    section + seq!['.'] + name + seq!['.'] + setting
}

/// The substitution context of a branch template: `BRANCH` is the current
/// branch.
pub open spec fn branch_context(branch: Seq<char>) -> Seq<(Seq<char>, Seq<char>)> {
    seq![(BRANCH_SUB_KEY@, branch)]
}

/// The texts of a list of named values.
pub open spec fn variable_pairs(variables: Seq<(String, String)>) -> Seq<(Seq<char>, Seq<char>)> {
    Seq::new(variables.len(), |i: int| (variables[i].0@, variables[i].1@))
}

/// The substitution context of a repository's templates: `BRANCH` is the
/// current branch, and after it come the variables of the environment that
/// the repository was given.
pub open spec fn template_context(
    branch: Seq<char>,
    environment: Seq<(Seq<char>, Seq<char>)>,
) -> Seq<(Seq<char>, Seq<char>)> {
    branch_context(branch) + environment
}

/// The full reference name of a local branch.
pub open spec fn branch_ref(branch: Seq<char>) -> Seq<char> {
    BRANCH_REF_PREFIX@ + branch
}

/// The refspec that pushes `local_ref` to the branch that `remote_branch`
/// names on the remote, once the variables of `context` are substituted in
/// it.
pub open spec fn refspec_text(
    local_ref: Seq<char>,
    remote_branch: Seq<char>,
    context: Seq<(Seq<char>, Seq<char>)>,
) -> Seq<char> {
    local_ref + seq![':'] + expanded(branch_ref(remote_branch), context)
}

/// Whether `name` is the snapshot branch when `found` is what the
/// configuration holds as the branch's own template and as the
/// repository's: the first template that is there, else
/// `snapshot/${BRANCH}`, with the variables of `context` substituted. A
/// template without a `$` is the name as it stands.
pub open spec fn names_snapshot_branch(
    found: Seq<Option<Seq<char>>>,
    context: Seq<(Seq<char>, Seq<char>)>,
    name: Seq<char>,
) -> bool {
    let template = first_present(found, DEFAULT_SNAPSHOT_BRANCH@);
    &&& found.len() == 2
    &&& name == expanded(template, context)
    &&& !template.contains('$') ==> name == template
}

/// A branch whose own template holds no variable is snapshotted to the
/// branch of that very name, whatever the repository's template, the
/// current branch and the environment are: with the template `backup`, the
/// snapshot reference is `refs/heads/backup`.
pub proof fn lemma_plain_branch_template(
    template: Seq<char>,
    repository_template: Option<Seq<char>>,
    context: Seq<(Seq<char>, Seq<char>)>,
    name: Seq<char>,
)
    requires
        !template.contains('$'),
        names_snapshot_branch(seq![Some(template), repository_template], context, name),
    ensures
        branch_ref(name) == BRANCH_REF_PREFIX@ + template,
{
}

/// Without any template in the configuration, the snapshot branch is what
/// `snapshot/${BRANCH}` expands to.
pub proof fn lemma_default_branch_template(context: Seq<(Seq<char>, Seq<char>)>, name: Seq<char>)
    requires
        names_snapshot_branch(seq![None, None], context, name),
    ensures
        name == expanded(DEFAULT_SNAPSHOT_BRANCH@, context),
{
    let found = seq![None::<Seq<char>>, None];
    assert(found.drop_first() =~= seq![None::<Seq<char>>]);
    lemma_first_present_single(None::<Seq<char>>, DEFAULT_SNAPSHOT_BRANCH@);
}

/// Builds the key `section.name.setting`.
pub fn scoped_key(section: &str, name: &str, setting: &str) -> (key: String)
    ensures
        key@ == setting_key(section@, name@, setting@),
{
    proof {
        reveal_strlit(".");
    }
    let key = String::from_str(section).concat(".").concat(name).concat(".").concat(setting);
    assert(key@ =~= setting_key(section@, name@, setting@)) by {
        assert("."@ =~= seq!['.']);
    }
    key
}

/// Builds the full reference name of a local branch.
pub fn branch_ref_name(branch: &str) -> (name: String)
    ensures
        name@ == branch_ref(branch@),
{
    String::from_str(BRANCH_REF_PREFIX).concat(branch)
}

/// Names the snapshot branch: the branch's own template where it has one,
/// else the repository's, else `snapshot/${BRANCH}`, with the variables of
/// `context` substituted.
pub fn snapshot_branch_for(
    branch_template: Option<String>,
    repository_template: Option<String>,
    context: &[(&str, &str)],
) -> (name: String)
    ensures
        names_snapshot_branch(
            seq![text_of(branch_template), text_of(repository_template)],
            context_pairs(context@),
            name@,
        ),
{
    let fallback = String::from_str(DEFAULT_SNAPSHOT_BRANCH);
    let mut found: Vec<Option<String>> = Vec::new();
    found.push(branch_template);
    found.push(repository_template);
    proof {
        lemma_first_present_text(found@, fallback);
        assert(option_texts(found@) =~= seq![
            text_of(branch_template),
            text_of(repository_template),
        ]);
    }
    let template = pick_first(found, fallback);
    expand(template.as_str(), context)
}

/// What HEAD was found to be.
pub enum HeadState {
    /// HEAD resolves to a reference.
    Attached {
        /// Whether that reference is a local branch.
        is_branch: bool,
        /// Whether it is a remote-tracking branch.
        is_remote: bool,
        /// Its short name, where it is valid text.
        shorthand: Option<String>,
    },
    /// HEAD names a branch that has no commit yet. `failure` is what
    /// resolving it gave, and `target` what reading the symbolic reference
    /// `HEAD` gave then: the full name it points to, if it points anywhere.
    Unborn { failure: GitError, target: Result<Option<String>, GitError> },
    /// HEAD could not be resolved, and not because its branch is unborn.
    /// `failure` is what resolving it gave.
    Unresolved { failure: GitError },
}

/// Whether `branch` is what the state of HEAD makes the current branch.
pub open spec fn is_branch_of(head: HeadState, branch: Result<String, Error>) -> bool {
    match head {
        HeadState::Attached { is_branch, is_remote, shorthand } => if is_branch && !is_remote
            && shorthand is Some {
            branch matches Ok(name) && name@ == shorthand->0@
        } else {
            branch matches Err(Error::InvalidHead)
        },
        HeadState::Unborn { target: Ok(Some(full)), .. } => branch matches Ok(name) && name@
            == branch_shorthand(full@),
        HeadState::Unborn { target: Ok(None), .. } => branch matches Err(Error::InvalidHead),
        HeadState::Unborn { target: Err(unread), .. } => branch matches Err(Error::Git(e)) && e
            == unread,
        HeadState::Unresolved { .. } => branch matches Err(Error::InvalidHead),
    }
}

/// Names the current branch from the state of HEAD: the short name of the
/// local branch that HEAD is on, and an invalid head where it is on none.
pub fn branch_from_head(head: HeadState) -> (branch: Result<String, Error>)
    ensures
        is_branch_of(head, branch),
{
    match head {
        HeadState::Attached { is_branch, is_remote, shorthand } => {
            if !is_branch || is_remote {
                return Err(Error::InvalidHead);
            }
            match shorthand {
                Some(name) => Ok(name),
                None => Err(Error::InvalidHead),
            }
        },
        HeadState::Unborn { target, .. } => match target {
            Ok(Some(full)) => Ok(branch_ref_shorthand(full.as_str()).to_owned()),
            Ok(None) => Err(Error::InvalidHead),
            Err(unread) => Err(Error::Git(unread)),
        },
        HeadState::Unresolved { .. } => Err(Error::InvalidHead),
    }
}

/// Why a trigger ended without a new snapshot.
#[derive(Clone, Copy, Debug, PartialEq, Eq, Structural)]
pub enum NoOp {
    /// Snapshots are switched off for the current branch.
    Disabled,
    /// The working tree holds nothing that can be staged.
    NothingStaged,
    /// The working tree equals the last snapshot.
    Unchanged,
}

/// What the engine has just learned, at one of the points where a trigger
/// can end early.
#[derive(Clone, Copy, Debug, PartialEq, Eq, Structural)]
pub enum Checkpoint {
    /// Whether snapshots are enabled for the current branch.
    Enabled(bool),
    /// How many entries were staged from the working tree.
    Staged(usize),
    /// How many files differ from the last snapshot.
    Changed(usize),
}

/// Whether a trigger ends at this checkpoint, and why.
pub open spec fn noop_at(checkpoint: Checkpoint) -> Option<NoOp> {
    match checkpoint {
        Checkpoint::Enabled(enabled) => if enabled {
            None
        } else {
            Some(NoOp::Disabled)
        },
        Checkpoint::Staged(entries) => if entries == 0 {
            Some(NoOp::NothingStaged)
        } else {
            None
        },
        Checkpoint::Changed(files) => if files == 0 {
            Some(NoOp::Unchanged)
        } else {
            None
        },
    }
}

/// Decides at a checkpoint whether the trigger ends there without a commit.
pub fn gate(checkpoint: Checkpoint) -> (end: Option<NoOp>)
    ensures
        end == noop_at(checkpoint),
{
    match checkpoint {
        Checkpoint::Enabled(enabled) => if enabled {
            None
        } else {
            Some(NoOp::Disabled)
        },
        Checkpoint::Staged(entries) => if entries == 0 {
            Some(NoOp::NothingStaged)
        } else {
            None
        },
        Checkpoint::Changed(files) => if files == 0 {
            Some(NoOp::Unchanged)
        } else {
            None
        },
    }
}

/// The view of an optional text.
pub open spec fn text_of(value: Option<String>) -> Option<Seq<char>> {
    match value {
        Some(text) => Some(text@),
        None => None,
    }
}

/// What is pushed to a remote: nothing unless its flag is set, and
/// otherwise the local snapshot reference, to the branch that the remote's
/// own setting names or else to the branch of the same name.
pub open spec fn push_plan(
    enabled: Option<bool>,
    remote_branch: Option<Seq<char>>,
    local_ref: Seq<char>,
    context: Seq<(Seq<char>, Seq<char>)>,
) -> Option<Seq<char>> {
    if first_present(seq![enabled], false) {
        Some(
            refspec_text(
                local_ref,
                first_present(seq![remote_branch], branch_shorthand(local_ref)),
                context,
            ),
        )
    } else {
        None
    }
}

/// Plans the push to one remote from what its configuration holds:
/// `enabled` is its snapshot flag and `remote_branch` its branch setting,
/// each `None` where it is not set.
pub fn plan_push(
    enabled: Option<bool>,
    remote_branch: Option<String>,
    local_ref: &str,
    context: &[(&str, &str)],
) -> (refspec: Option<String>)
    ensures
        text_of(refspec) == push_plan(
            enabled,
            text_of(remote_branch),
            local_ref@,
            context_pairs(context@),
        ),
{
    let ghost wanted = text_of(remote_branch);
    let mut flags: Vec<Option<bool>> = Vec::new();
    flags.push(enabled);
    proof {
        assert(flags@ =~= seq![enabled]);
        lemma_first_present_single(enabled, false);
        lemma_first_present_single(wanted, branch_shorthand(local_ref@));
    }
    if !pick_first(flags, false) {
        return None;
    }
    let branch = match remote_branch {
        Some(name) => name,
        None => branch_ref_shorthand(local_ref).to_owned(),
    };
    proof {
        reveal_strlit(":");
        assert(":"@ =~= seq![':']);
    }
    let remote_ref = expand(branch_ref_name(branch.as_str()).as_str(), context);
    let refspec = String::from_str(local_ref).concat(":").concat(remote_ref.as_str());
    assert(refspec@ =~= refspec_text(local_ref@, branch@, context_pairs(context@)));
    Some(refspec)
}

/// Remote opt-in: a remote whose snapshot flag is not set receives no
/// push, whatever else its configuration holds.
pub proof fn lemma_push_is_opt_in(
    remote_branch: Option<Seq<char>>,
    local_ref: Seq<char>,
    context: Seq<(Seq<char>, Seq<char>)>,
)
    ensures
        push_plan(None, remote_branch, local_ref, context) is None,
        push_plan(Some(false), remote_branch, local_ref, context) is None,
        push_plan(Some(true), remote_branch, local_ref, context) is Some,
{
    lemma_first_present_single(None::<bool>, false);
    lemma_first_present_single(Some(false), false);
    lemma_first_present_single(Some(true), false);
}

/// Branch gating and idempotence: a trigger ends without a commit where the
/// branch's flag is off, and where no file differs from the last snapshot;
/// a branch without a flag counts as enabled.
pub proof fn lemma_gates()
    ensures
        noop_at(Checkpoint::Enabled(first_present(seq![Some(false)], true))) == Some(
            NoOp::Disabled,
        ),
        noop_at(Checkpoint::Enabled(first_present(seq![None::<bool>], true))) is None,
        noop_at(Checkpoint::Changed(0)) == Some(NoOp::Unchanged),
{
    lemma_first_present_single(Some(false), true);
    lemma_first_present_single(None::<bool>, true);
}

/// Whether a push status agrees with the plan for its remote: a push was
/// made only where the remote's flag asks for it, and with the refspec of
/// the plan.
pub open spec fn follows_plan(
    status: PushStatus,
    local_ref: Seq<char>,
    context: Seq<(Seq<char>, Seq<char>)>,
) -> bool {
    status matches PushStatus::Pushed { refspec } ==> exists|
        remote_branch: Option<Seq<char>>,
    |
        Some(refspec@) == #[trigger] push_plan(Some(true), remote_branch, local_ref, context)
}

/// A path without the `/` that end it.
pub open spec fn without_trailing_slashes(path: Seq<char>) -> Seq<char>
    decreases path.len(),
{
    if path.len() > 0 && path.last() == '/' {
        without_trailing_slashes(path.drop_last())
    } else {
        path
    }
}

/// What follows the last `/` of a path; all of it where it holds none.
pub open spec fn after_last_slash(path: Seq<char>) -> Seq<char>
    decreases path.len(),
{
    if path.len() == 0 || path.last() == '/' {
        Seq::empty()
    } else {
        after_last_slash(path.drop_last()).push(path.last())
    }
}

/// The last component of a path: what follows its last `/`, once the `/`
/// that end it are left out.
pub open spec fn last_component_of(path: Seq<char>) -> Seq<char> {
    after_last_slash(without_trailing_slashes(path))
}

/// Takes the last component of a path; `None` where the path has none, as
/// the empty path and `/` have.
pub fn last_component(path: &str) -> (name: Option<String>)
    ensures
        match name {
            Some(text) => text@ == last_component_of(path@) && text@.len() > 0,
            None => last_component_of(path@).len() == 0,
        },
{
    let chars = chars_of(path);
    let mut end: usize = chars.len();
    assert(chars@.take(end as int) =~= path@);
    while end > 0 && chars[end - 1] == '/'
        invariant
            chars@ == path@,
            end <= chars@.len(),
            without_trailing_slashes(path@) == without_trailing_slashes(chars@.take(end as int)),
        decreases end,
    {
        assert(chars@.take(end as int).drop_last() =~= chars@.take(end - 1));
        end -= 1;
    }
    let ghost trimmed = chars@.take(end as int);
    assert(without_trailing_slashes(path@) == trimmed);
    let mut start: usize = end;
    assert(chars@.subrange(start as int, end as int) =~= Seq::<char>::empty());
    assert(after_last_slash(trimmed) =~= after_last_slash(trimmed) + Seq::<char>::empty());
    while start > 0 && chars[start - 1] != '/'
        invariant
            chars@ == path@,
            start <= end <= chars@.len(),
            trimmed == chars@.take(end as int),
            after_last_slash(trimmed) == after_last_slash(chars@.take(start as int))
                + chars@.subrange(start as int, end as int),
        decreases start,
    {
        proof {
            let head = chars@.take(start as int);
            assert(head.drop_last() =~= chars@.take(start - 1));
            assert(head.last() == chars@[start - 1]);
            assert(after_last_slash(head.drop_last()).push(head.last()) + chars@.subrange(
                start as int,
                end as int,
            ) =~= after_last_slash(head.drop_last()) + chars@.subrange(start - 1, end as int));
        }
        start -= 1;
    }
    assert(after_last_slash(chars@.take(start as int)) =~= Seq::<char>::empty());
    assert(after_last_slash(trimmed) =~= path@.subrange(start as int, end as int));
    if start == end {
        None
    } else {
        Some(path.substring_char(start, end).to_owned())
    }
}

/// The name under which a repository goes: that of its directory, or
/// `unknown`.
pub fn display_name(directory: Option<String>) -> (name: String)
    ensures
        match directory {
            Some(found) => name == found,
            None => name@ == "unknown"@,
        },
{
    match directory {
        Some(found) => found,
        None => String::from_str("unknown"),
    }
}

/// Copies a list of named values.
pub fn copy_variables(variables: &Vec<(String, String)>) -> (copy: Vec<(String, String)>)
    ensures
        variable_pairs(copy@) == variable_pairs(variables@),
{
    let mut copy: Vec<(String, String)> = Vec::new();
    let mut i: usize = 0;
    while i < variables.len()
        invariant
            i <= variables@.len(),
            copy@.len() == i,
            forall|k: int|
                0 <= k < i ==> (#[trigger] copy@[k]).0@ == variables@[k].0@ && copy@[k].1@
                    == variables@[k].1@,
        decreases variables@.len() - i,
    {
        let entry = &variables[i];
        copy.push((entry.0.clone(), entry.1.clone()));
        i += 1;
    }
    assert(variable_pairs(copy@) =~= variable_pairs(variables@));
    copy
}

/// How the push to one remote went.
#[derive(Debug)]
pub enum PushStatus {
    /// The remote did not ask for snapshots; nothing was sent.
    Skipped,
    /// The snapshot reference was pushed with this refspec.
    Pushed { refspec: String },
    /// The push was attempted and failed.
    Failed { error: GitError },
}

/// The outcome of the push step for one configured remote.
#[derive(Debug)]
pub struct PushReport {
    /// The remote's name; `None` where it is not valid text.
    pub remote: Option<String>,
    /// What happened.
    pub status: PushStatus,
}

/// Reports how a planned push went: `attempt` is what looking the remote up
/// and pushing `refspec` to it gave.
pub fn push_status(refspec: String, attempt: Result<(), GitError>) -> (status: PushStatus)
    ensures
        match attempt {
            Ok(_) => status matches PushStatus::Pushed { refspec: sent } && sent == refspec,
            Err(failure) => status matches PushStatus::Failed { error } && error == failure,
        },
{
    match attempt {
        Ok(_) => PushStatus::Pushed { refspec },
        Err(error) => PushStatus::Failed { error },
    }
}

/// Whether every report on a remote whose name is not valid text says that
/// the remote was skipped.
pub open spec fn unnamed_are_skipped(reports: Seq<PushReport>) -> bool {
    forall|i: int|
        0 <= i < reports.len() && (#[trigger] reports[i]).remote is None ==> reports[i].status
            is Skipped
}

/// Whether every report agrees with the plan for its remote.
pub open spec fn all_follow_plan(
    reports: Seq<PushReport>,
    local_ref: Seq<char>,
    context: Seq<(Seq<char>, Seq<char>)>,
) -> bool {
    forall|i: int|
        0 <= i < reports.len() ==> follows_plan(#[trigger] reports[i].status, local_ref, context)
}

/// Whether a commit on `reference` with these push reports is what a
/// snapshot gives for some current branch: the reference is that of the
/// branch's snapshot branch under some templates, every push went by the
/// plan for its remote with that same branch, and no remote without a name
/// was tried.
pub open spec fn is_snapshot_report(
    reference: Seq<char>,
    reports: Seq<PushReport>,
    environment: Seq<(Seq<char>, Seq<char>)>,
) -> bool {
    &&& exists|found: Seq<Option<Seq<char>>>, current_branch: Seq<char>, name: Seq<char>|
        #[trigger] names_snapshot_branch(
            found,
            template_context(current_branch, environment),
            name,
        ) && reference == branch_ref(name) && all_follow_plan(
            reports,
            reference,
            template_context(current_branch, environment),
        )
    &&& unnamed_are_skipped(reports)
}

/// Whether `result` is what a snapshot can give for a repository with this
/// environment: an error of the engine, a no-op, or a commit with its
/// snapshot report.
pub open spec fn is_snapshot_result(
    result: Result<SnapshotOutcome, Error>,
    environment: Seq<(Seq<char>, Seq<char>)>,
) -> bool {
    match result {
        Err(error) => is_engine_error(error),
        Ok(SnapshotOutcome::NoOp(_)) => true,
        Ok(SnapshotOutcome::Committed { reference, pushes, .. }) => is_snapshot_report(
            reference@,
            pushes@,
            environment,
        ),
    }
}

/// How a trigger ended.
#[derive(Debug)]
pub enum SnapshotOutcome {
    /// Nothing was committed.
    NoOp(NoOp),
    /// A new snapshot commit was made.
    Committed {
        /// The full name of the snapshot reference that now points to it.
        reference: String,
        /// The id of the commit.
        commit: String,
        /// One report for each configured remote, in the repository's order.
        pushes: Vec<PushReport>,
    },
}

/// Carries a git failure over into the library's error.
pub fn git_result<T>(outcome: Result<T, GitError>) -> (lifted: Result<T, Error>)
    ensures
        match outcome {
            Ok(value) => lifted == Ok::<T, Error>(value),
            Err(failure) => lifted matches Err(Error::Git(e)) && e == failure,
        },
{
    match outcome {
        Ok(value) => Ok(value),
        Err(failure) => Err(Error::Git(failure)),
    }
}

/// Whether an error is one that the git library reported or an invalid head:
/// the only errors that the engine itself gives.
pub open spec fn is_engine_error(error: Error) -> bool {
    error is Git || error is InvalidHead
}

/// A git repository that snapshots are taken of, with the variables that
/// its branch templates may use besides `BRANCH`.
pub struct Repo {
    git_repo: git2::Repository,
    environment: Vec<(String, String)>,
}

impl Repo {
    /// The repository that this value wraps.
    pub closed spec fn repository(&self) -> git2::Repository {
        self.git_repo
    }

    /// The variables that branch templates may use besides `BRANCH`.
    pub closed spec fn environment(&self) -> Seq<(Seq<char>, Seq<char>)> {
        variable_pairs(self.environment@)
    }

    /// Wraps an opened repository. Its templates know no variable but
    /// `BRANCH`.
    pub fn new(repo: git2::Repository) -> (opened: Self)
        ensures
            opened.repository() == repo,
            opened.environment() == Seq::<(Seq<char>, Seq<char>)>::empty(),
    {
        let opened = Repo { git_repo: repo, environment: Vec::new() };
        assert(opened.environment() =~= Seq::<(Seq<char>, Seq<char>)>::empty());
        opened
    }

    /// Gives the repository the variables that its branch templates may
    /// use besides `BRANCH`, such as those of the process environment.
    /// Where a name occurs twice, the first entry counts.
    pub fn with_environment(self, environment: Vec<(String, String)>) -> (repo: Self)
        ensures
            repo.repository() == self.repository(),
            repo.environment() == variable_pairs(environment@),
    {
        Repo { git_repo: self.git_repo, environment }
    }

    /// The substitution context for templates on `current_branch`.
    fn context<'a>(&'a self, current_branch: &'a str) -> (context: Vec<(&'a str, &'a str)>)
        ensures
            context_pairs(context@) == template_context(current_branch@, self.environment()),
    {
        let mut context: Vec<(&'a str, &'a str)> = Vec::new();
        context.push((BRANCH_SUB_KEY, current_branch));
        let mut i: usize = 0;
        assert(context_pairs(context@) =~= branch_context(current_branch@) + self.environment().take(
            0,
        ));
        while i < self.environment.len()
            invariant
                i <= self.environment@.len(),
                context_pairs(context@) == branch_context(current_branch@)
                    + self.environment().take(i as int),
            decreases self.environment@.len() - i,
        {
            let ghost before = context_pairs(context@);
            let entry = &self.environment[i];
            context.push((entry.0.as_str(), entry.1.as_str()));
            assert(context_pairs(context@) =~= before.push((entry.0@, entry.1@)));
            assert(self.environment().take(i + 1) =~= self.environment().take(i as int).push(
                (entry.0@, entry.1@),
            ));
            i += 1;
        }
        assert(self.environment().take(i as int) =~= self.environment());
        context
    }

    /// Opens the repository that holds `path`, as `new` wraps it: its
    /// templates know no variable but `BRANCH`. Where the repository cannot
    /// be opened, the failure of the git library comes back.
    pub fn from_path(path: &str) -> (opened: Result<Self, Error>)
        ensures
            opened matches Ok(repo) ==> repo.environment() == Seq::<
                (Seq<char>, Seq<char>),
            >::empty(),
            opened matches Err(e) ==> e is Git,
    {
        match git_result(git::discover(path)) {
            Ok(git_repo) => Ok(Self::new(git_repo)),
            Err(error) => Err(error),
        }
    }

    /// The repository underneath.
    pub fn git_repo(&self) -> (repo: &git2::Repository)
        ensures
            *repo == self.repository(),
    {
        &self.git_repo
    }

    /// The name of the repository's own directory, or `unknown`.
    pub fn name(&self) -> (name: String) {
        let directory = match git::directory(&self.git_repo) {
            Some(path) => last_component(path.as_str()),
            None => None,
        };
        display_name(directory)
    }

    /// The name of the snapshot branch for `current_branch`, from the
    /// templates that the configuration holds under
    /// `branch.<name>.snapshotbranch` and `snapshot.snapshotbranch`; see
    /// `snapshot_branch_for`.
    pub fn snapshot_branch(config: &git2::Config, current_branch: &str) -> (name: String)
        ensures
            exists|found: Seq<Option<Seq<char>>>| #[trigger]
                names_snapshot_branch(found, branch_context(current_branch@), name@),
    {
        let context = [(BRANCH_SUB_KEY, current_branch)];
        assert(context_pairs(context@) =~= branch_context(current_branch@));
        Self::snapshot_branch_in(config, current_branch, context.as_slice())
    }

    /// The name of the snapshot branch of this repository for
    /// `current_branch`, as `snapshot` names it: with `BRANCH` and the
    /// variables of the repository's environment substituted in the
    /// template.
    pub fn snapshot_branch_name(&self, config: &git2::Config, current_branch: &str) -> (name:
        String)
        ensures
            exists|found: Seq<Option<Seq<char>>>| #[trigger]
                names_snapshot_branch(
                    found,
                    template_context(current_branch@, self.environment()),
                    name@,
                ),
    {
        let context = self.context(current_branch);
        Self::snapshot_branch_in(config, current_branch, context.as_slice())
    }

    /// The name of the snapshot branch for `current_branch`, with the
    /// variables of `context` substituted in its template.
    fn snapshot_branch_in(
        config: &git2::Config,
        current_branch: &str,
        context: &[(&str, &str)],
    ) -> (name: String)
        ensures
            exists|found: Seq<Option<Seq<char>>>| #[trigger]
                names_snapshot_branch(found, context_pairs(context@), name@),
    {
        let branch_key = scoped_key("branch", current_branch, "snapshotbranch");
        let branch_template = String::lookup(config, branch_key.as_str());
        let repository_template = match &branch_template {
            Some(_) => None,
            None => String::lookup(config, "snapshot.snapshotbranch"),
        };
        let ghost found = seq![text_of(branch_template), text_of(repository_template)];
        let name = snapshot_branch_for(branch_template, repository_template, context);
        assert(names_snapshot_branch(found, context_pairs(context@), name@));
        name
    }

    /// Reads the state of HEAD. Where HEAD does not resolve, the failure
    /// decides what is read next: for an unborn branch the symbolic
    /// reference `HEAD`, for any other failure nothing.
    pub fn head_state(&self) -> (state: HeadState)
        ensures
            state matches HeadState::Unborn { failure, .. } ==> failure.code
                == GIT_UNBORN_BRANCH,
            state matches HeadState::Unresolved { failure } ==> failure.code
                != GIT_UNBORN_BRANCH,
    {
        match git::head(&self.git_repo) {
            Ok(reference) => HeadState::Attached {
                is_branch: git::is_branch(&reference),
                is_remote: git::is_remote(&reference),
                shorthand: git::shorthand(&reference),
            },
            Err(failure) => {
                if failure.code == GIT_UNBORN_BRANCH {
                    match git::find_reference(&self.git_repo, "HEAD") {
                        Ok(reference) => HeadState::Unborn {
                            failure,
                            target: Ok(git::symbolic_target(&reference)),
                        },
                        Err(unread) => HeadState::Unborn { failure, target: Err(unread) },
                    }
                } else {
                    HeadState::Unresolved { failure }
                }
            },
        }
    }

    /// The short name of the branch that HEAD is on. A detached HEAD, or one
    /// that is on no local branch, is an invalid head.
    pub fn current_branch(&self) -> (branch: Result<String, Error>)
        ensures
            exists|head: HeadState| #[trigger] is_branch_of(head, branch),
            branch matches Err(e) ==> is_engine_error(e),
    {
        let head = self.head_state();
        let branch = branch_from_head(head);
        assert(is_branch_of(head, branch));
        branch
    }

    /// Takes a snapshot of the working tree, unless there is nothing to do.
    ///
    /// The trigger ends without a commit where snapshots are disabled for
    /// the current branch, where nothing can be staged, and where the staged
    /// tree equals that of the last snapshot. Otherwise the tree is
    /// committed on the snapshot reference, on top of the last snapshot, and
    /// the reference is pushed to each remote that asks for it.
    pub fn snapshot(&self) -> (outcome: Result<SnapshotOutcome, Error>)
        ensures
            is_snapshot_result(outcome, self.environment()),
    {
        let current_branch = self.current_branch()?;
        let config = git_result(git::config(&self.git_repo))?;

        let enabled_key = scoped_key("branch", current_branch.as_str(), "snapshotenabled");
        let enabled_keys = [enabled_key.as_str()];
        let enabled = bool::from_config(&config, enabled_keys.as_slice(), true);
        if let Some(reason) = gate(Checkpoint::Enabled(enabled)) {
            return Ok(SnapshotOutcome::NoOp(reason));
        }
        let context = self.context(current_branch.as_str());
        let snapshot_branch = Self::snapshot_branch_in(
            &config,
            current_branch.as_str(),
            context.as_slice(),
        );
        let snapshot_ref_name = branch_ref_name(snapshot_branch.as_str());

        let mut index = git_result(git::new_index())?;
        git_result(git::set_index(&self.git_repo, &mut index))?;
        git_result(git::add_all(&mut index, "*"))?;
        if let Some(reason) = gate(Checkpoint::Staged(git::index_len(&index))) {
            return Ok(SnapshotOutcome::NoOp(reason));
        }
        let tree_id = git_result(git::write_tree(&mut index))?;
        let tree = git_result(git::find_tree(&self.git_repo, tree_id))?;

        let snapshot_ref = git::find_reference(&self.git_repo, snapshot_ref_name.as_str()).ok();
        let previous_tree = match &snapshot_ref {
            Some(reference) => git::peel_to_tree(reference).ok(),
            None => None,
        };
        let diff = git_result(
            git::diff_tree_to_tree(&self.git_repo, previous_tree.as_ref(), &tree),
        )?;
        if let Some(reason) = gate(Checkpoint::Changed(git::delta_count(&diff))) {
            return Ok(SnapshotOutcome::NoOp(reason));
        }
        let identity = git_result(git::signature(&self.git_repo))?;
        let parent = match &snapshot_ref {
            Some(reference) => git::peel_to_commit(reference).ok(),
            None => None,
        };
        let message_key = scoped_key("branch", current_branch.as_str(), "snapshotmessage");
        let message_keys = [message_key.as_str(), "snapshot.snapshotmessage"];
        let message = String::from_config(
            &config,
            message_keys.as_slice(),
            String::from_str(DEFAULT_SNAPSHOT_COMMIT_MESSAGE),
        );
        let commit = git_result(
            git::commit(
                &self.git_repo,
                snapshot_ref_name.as_str(),
                &identity,
                message.as_str(),
                &tree,
                parent.as_ref(),
            ),
        )?;
        let pushes = self.push(snapshot_ref_name.as_str(), context.as_slice(), &config)?;
        proof {
            let ghost pairs = template_context(current_branch@, self.environment());
            let found = choose|found: Seq<Option<Seq<char>>>| #[trigger]
                names_snapshot_branch(found, pairs, snapshot_branch@);
            assert(names_snapshot_branch(found, pairs, snapshot_branch@));
            assert(snapshot_ref_name@ == branch_ref(snapshot_branch@));
            assert(all_follow_plan(pushes@, snapshot_ref_name@, pairs));
            assert(is_snapshot_report(snapshot_ref_name@, pushes@, self.environment()));
        }
        Ok(SnapshotOutcome::Committed { reference: snapshot_ref_name, commit, pushes })
    }

    /// Pushes the snapshot reference to every configured remote that asks
    /// for it. Only a failure to list the remotes is an error.
    fn push(&self, ref_name: &str, context: &[(&str, &str)], config: &git2::Config) -> (reports:
        Result<Vec<PushReport>, Error>)
        ensures
            reports matches Err(e) ==> e is Git,
            reports matches Ok(list) ==> all_follow_plan(
                list@,
                ref_name@,
                context_pairs(context@),
            ) && unnamed_are_skipped(list@),
    {
        let names = git_result(git::remotes(&self.git_repo))?;
        Ok(self.push_to_remotes(&names, ref_name, context, config))
    }

    /// Handles the remotes of the given names one by one and reports on each
    /// in turn: a failure at one remote does not keep the next from being
    /// tried.
    pub fn push_to_remotes(
        &self,
        names: &Vec<Option<String>>,
        ref_name: &str,
        context: &[(&str, &str)],
        config: &git2::Config,
    ) -> (reports: Vec<PushReport>)
        ensures
            reports@.len() == names@.len(),
            forall|i: int|
                0 <= i < names@.len() ==> text_of(#[trigger] reports@[i].remote) == text_of(
                    names@[i],
                ),
            forall|i: int|
                0 <= i < names@.len() && names@[i] is None ==> #[trigger] reports@[i].status
                    is Skipped,
            all_follow_plan(reports@, ref_name@, context_pairs(context@)),
    {
        let mut reports: Vec<PushReport> = Vec::new();
        let mut i: usize = 0;
        while i < names.len()
            invariant
                i <= names@.len(),
                reports@.len() == i,
                forall|k: int|
                    0 <= k < i ==> text_of(#[trigger] reports@[k].remote) == text_of(names@[k]),
                forall|k: int|
                    0 <= k < i && names@[k] is None ==> #[trigger] reports@[k].status is Skipped,
                forall|k: int|
                    0 <= k < i ==> follows_plan(
                        #[trigger] reports@[k].status,
                        ref_name@,
                        context_pairs(context@),
                    ),
            decreases names@.len() - i,
        {
            let report = match &names[i] {
                Some(name) => PushReport {
                    remote: Some(name.clone()),
                    status: self.push_to_remote(name.as_str(), ref_name, context, config),
                },
                None => PushReport { remote: None, status: PushStatus::Skipped },
            };
            reports.push(report);
            i += 1;
        }
        reports
    }

    /// Pushes the snapshot reference to one remote, if its configuration
    /// asks for it.
    pub fn push_to_remote(
        &self,
        remote: &str,
        ref_name: &str,
        context: &[(&str, &str)],
        config: &git2::Config,
    ) -> (status: PushStatus)
        ensures
            follows_plan(status, ref_name@, context_pairs(context@)),
    {
        let enabled_key = scoped_key("remote", remote, "snapshotenabled");
        let enabled = bool::lookup(config, enabled_key.as_str());
        let remote_branch = match enabled {
            Some(true) => {
                let branch_key = scoped_key("remote", remote, "snapshotbranch");
                String::lookup(config, branch_key.as_str())
            },
            _ => None,
        };
        let ghost wanted = text_of(remote_branch);
        match plan_push(enabled, remote_branch, ref_name, context) {
            None => PushStatus::Skipped,
            Some(refspec) => {
                proof {
                    lemma_first_present_single(enabled, false);
                    assert(Some(refspec@) == push_plan(
                        Some(true),
                        wanted,
                        ref_name@,
                        context_pairs(context@),
                    ));
                }
                let attempt = match git::find_remote(&self.git_repo, remote) {
                    Err(failure) => Err(failure),
                    Ok(mut found) => git::push(&mut found, refspec.as_str(), config),
                };
                push_status(refspec, attempt)
            },
        }
    }

    /// Whether the repository's ignore rules cover `path`.
    pub fn is_ignored(&self, path: &str) -> (ignored: Result<bool, Error>)
        ensures
            ignored matches Err(e) ==> e is Git,
    {
        git_result(git::is_path_ignored(&self.git_repo, path))
    }
}

} // verus!
