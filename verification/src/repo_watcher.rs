//! The repository coordinator: the watch set that a configuration
//! describes, the handler that runs for a changed repository, and the hot
//! reload that swaps the whole watch set when the configuration changes.
use crate::error::Error;
use crate::repo::{
    copy_variables, is_engine_error, is_snapshot_report, variable_pairs, Repo, SnapshotOutcome,
};
use crate::util::same_text;
use crate::watcher::{
    after_due, after_event, after_watch, calls_of, distinct_roots, due_calls, has_due, is_change,
    is_owed, is_registered, is_within, lemma_after_watch, lemma_due_calls_are_owed,
    lemma_event_outside_every_root, lemma_position_of, path_within, position_of, resets, Call,
    EventKind,
    PendingDebounce, Registration, WatchMode, Watcher,
};
use vstd::prelude::*;
use vstd::string::*;

verus! {

/// One watched repository.
#[derive(Debug)]
pub struct RepoConfig {
    /// The canonical, absolute path of its working directory.
    pub path: String,
}

/// What to watch and how.
#[derive(Debug)]
pub struct WatchConfig {
    /// The repositories to watch.
    pub repos: Vec<RepoConfig>,
    /// How changes are detected.
    pub mode: WatchMode,
    /// The quiet period after the last change, in milliseconds.
    pub debounce_period: u64,
}

/// The quiet period that applies where none is configured: 30 seconds.
pub const DEFAULT_DEBOUNCE_PERIOD: u64 = 30000;

/// The paths of a list of repositories.
pub open spec fn repo_paths(repos: Seq<RepoConfig>) -> Seq<Seq<char>> {
    Seq::new(repos.len(), |i: int| repos[i].path@)
}

impl Default for WatchMode {
    fn default() -> (mode: Self)
        ensures
            mode == WatchMode::Event,
    {
        WatchMode::Event
    }
}

impl Default for WatchConfig {
    fn default() -> (config: Self)
        ensures
            config.repos@.len() == 0,
            config.mode == WatchMode::Event,
            config.debounce_period == DEFAULT_DEBOUNCE_PERIOD,
    {
        WatchConfig {
            repos: Vec::new(),
            mode: WatchMode::Event,
            debounce_period: DEFAULT_DEBOUNCE_PERIOD,
        }
    }
}

/// The position of the first entry of a list that equals `path`.
pub open spec fn first_index(paths: Seq<Seq<char>>, path: Seq<char>) -> Option<int>
    decreases paths.len(),
{
    if paths.len() == 0 {
        None
    } else if paths[0] == path {
        Some(0)
    } else {
        match first_index(paths.drop_first(), path) {
            Some(at) => Some(at + 1),
            None => None,
        }
    }
}

/// `first_index` finds the first occurrence, and none only where there is
/// none.
pub proof fn lemma_first_index(paths: Seq<Seq<char>>, path: Seq<char>)
    ensures
        match first_index(paths, path) {
            Some(at) => 0 <= at < paths.len() && paths[at] == path && forall|i: int|
                0 <= i < at ==> paths[i] != path,
            None => !paths.contains(path),
        },
    decreases paths.len(),
{
    if paths.len() > 0 {
        let rest = paths.drop_first();
        lemma_first_index(rest, path);
        assert(forall|i: int| 0 <= i < rest.len() ==> rest[i] == paths[i + 1]);
        match first_index(paths, path) {
            Some(at) => {
                assert forall|i: int| 0 <= i < at implies paths[i] != path by {
                    if i > 0 {
                        assert(rest[i - 1] == paths[i]);
                    }
                }
            },
            None => {
                assert forall|i: int| 0 <= i < paths.len() implies paths[i] != path by {
                    if i > 0 {
                        assert(rest[i - 1] == paths[i]);
                        assert(rest.contains(rest[i - 1]) || rest[i - 1] != path);
                    }
                }
            },
        }
    }
}

impl WatchConfig {
    /// The paths of the watched repositories, in order.
    pub open spec fn paths(&self) -> Seq<Seq<char>> {
        repo_paths(self.repos@)
    }

    /// Finds the first repository of that path.
    fn position(&self, path: &str) -> (at: Option<usize>)
        ensures
            match at {
                Some(i) => first_index(self.paths(), path@) == Some(i as int) && i
                    < self.repos@.len(),
                None => first_index(self.paths(), path@) is None,
            },
    {
        let ghost paths = self.paths();
        let mut i: usize = 0;
        assert(paths.skip(0) =~= paths);
        while i < self.repos.len()
            invariant
                paths == self.paths(),
                i <= self.repos@.len(),
                match first_index(paths.skip(i as int), path@) {
                    Some(at) => first_index(paths, path@) == Some(at + i),
                    None => first_index(paths, path@) is None,
                },
            decreases self.repos@.len() - i,
        {
            proof {
                let rest = paths.skip(i as int);
                assert(rest[0] == self.repos@[i as int].path@);
                assert(rest.drop_first() =~= paths.skip(i + 1));
            }
            if same_text(self.repos[i].path.as_str(), path) {
                return Some(i);
            }
            i += 1;
        }
        assert(paths.skip(i as int).len() == 0);
        None
    }

    /// Adds the repository at `path` to the watch list, unless it is there
    /// already. Says whether it was added.
    pub fn add_repo(&mut self, path: &str) -> (added: bool)
        ensures
            added == !old(self).paths().contains(path@),
            final(self).paths() == if added {
                old(self).paths().push(path@)
            } else {
                old(self).paths()
            },
            final(self).mode == old(self).mode,
            final(self).debounce_period == old(self).debounce_period,
    {
        proof {
            lemma_first_index(self.paths(), path@);
        }
        match self.position(path) {
            Some(_) => false,
            None => {
                self.repos.push(RepoConfig { path: path.to_owned() });
                assert(self.paths() =~= old(self).paths().push(path@));
                true
            },
        }
    }

    /// Takes the repository at `path` off the watch list: its first entry,
    /// where it is listed more than once. Says whether one was removed.
    pub fn remove_repo(&mut self, path: &str) -> (removed: bool)
        ensures
            removed == old(self).paths().contains(path@),
            final(self).paths() == match first_index(old(self).paths(), path@) {
                Some(at) => old(self).paths().remove(at),
                None => old(self).paths(),
            },
            final(self).mode == old(self).mode,
            final(self).debounce_period == old(self).debounce_period,
    {
        proof {
            lemma_first_index(self.paths(), path@);
        }
        match self.position(path) {
            Some(at) => {
                self.repos.remove(at);
                assert(self.paths() =~= old(self).paths().remove(at as int));
                true
            },
            None => false,
        }
    }
}

/// What a watched root stands for.
#[derive(Clone, Copy, Debug, PartialEq, Eq, Structural)]
pub enum RootHandler {
    /// A repository: a change there calls for a snapshot.
    Repository,
    /// The coordinator's own configuration file: a change there calls for a
    /// reload.
    ConfigFile,
}

/// What the coordinator asks to be done once a root has stayed quiet.
#[derive(Debug)]
pub enum Task {
    /// Handle the change at `path` in the repository at `root`.
    Snapshot { path: String, root: String },
    /// Read the configuration file at `path` again and swap the watch set.
    Reload { path: String },
}

/// Whether `task` is what the registry asks for when `call` is due: a
/// snapshot for a repository, a reload for the configuration file.
pub open spec fn is_task_of(entries: Seq<Registration<RootHandler>>, call: Call, task: Task) -> bool {
    match position_of(entries, call.root) {
        Some(at) => match entries[at].handler {
            RootHandler::Repository => task matches Task::Snapshot { path, root } && path@
                == call.path && root@ == call.root,
            RootHandler::ConfigFile => task matches Task::Reload { path } && path@ == call.path,
        },
        None => false,
    }
}

/// The name of a repository's private metadata directory.
pub const METADATA_DIR: &'static str = ".git";

/// Where `path` lies relative to `root`, for a path within the root: what
/// follows the root, without the `/` that separates the two.
pub open spec fn relative_to(path: Seq<char>, root: Seq<char>) -> Seq<char> {
    let rest = path.skip(root.len() as int);
    if rest.len() > 0 && rest[0] == '/' {
        rest.skip(1)
    } else {
        rest
    }
}

/// Whether a path relative to a repository's root lies under the
/// repository's private metadata directory.
pub open spec fn is_metadata(relative: Seq<char>) -> bool {
    path_within(relative, METADATA_DIR@)
}

/// Locates `path` relative to `root`; `None` where it does not lie within
/// the root.
pub fn relative_path(path: &str, root: &str) -> (relative: Option<String>)
    ensures
        match relative {
            Some(rest) => path_within(path@, root@) && rest@ == relative_to(path@, root@),
            None => !path_within(path@, root@),
        },
{
    if !is_within(path, root) {
        return None;
    }
    let path_len = path.unicode_len();
    let root_len = root.unicode_len();
    let from = if root_len < path_len && path.get_char(root_len) == '/' {
        root_len + 1
    } else {
        root_len
    };
    let rest = path.substring_char(from, path_len);
    proof {
        let tail = path@.skip(root_len as int);
        assert(tail =~= path@.subrange(root_len as int, path_len as int));
        if root_len < path_len && path@[root_len as int] == '/' {
            assert(tail[0] == path@[root_len as int]);
            assert(tail.skip(1) =~= path@.subrange(from as int, path_len as int));
        }
    }
    Some(rest.to_owned())
}

/// How the handler of a repository dealt with a change.
#[derive(Debug)]
pub enum ChangeOutcome {
    /// The path does not lie within the root; nothing was done.
    Outside,
    /// The path lies under the metadata directory; the event was dropped.
    Metadata,
    /// The root could not be opened as a repository.
    NoRepository(Error),
    /// The repository's ignore rules cover the path; nothing was done.
    Ignored,
    /// The snapshot engine ran, with this result.
    Snapshot(Result<SnapshotOutcome, Error>),
}

/// Says whether the answer of the ignore rules keeps a path from the
/// snapshot engine: it does where the rules cover the path. Where the rules
/// could not be asked, the path counts as not ignored.
pub fn covered(ignored: Result<bool, Error>) -> (skip: bool)
    ensures
        skip == (ignored matches Ok(true)),
{
    match ignored {
        Ok(answer) => answer,
        Err(_) => false,
    }
}

/// Handles a change at `path` in the repository at `root`.
///
/// A path outside the root or under the repository's metadata directory is
/// dropped before the repository is touched. Otherwise the root is opened,
/// the path is checked against the ignore rules, and unless they cover it
/// the snapshot engine runs, with `environment` as the variables that
/// branch templates may use besides `BRANCH`. An error is handed back,
/// never raised.
pub fn handle_change(path: &str, root: &str, environment: &Vec<(String, String)>) -> (outcome:
    ChangeOutcome)
    ensures
        outcome is Outside <==> !path_within(path@, root@),
        outcome is Metadata <==> path_within(path@, root@) && is_metadata(
            relative_to(path@, root@),
        ),
        outcome matches ChangeOutcome::NoRepository(e) ==> e is Git,
        outcome matches ChangeOutcome::Snapshot(Err(e)) ==> is_engine_error(e),
        outcome matches ChangeOutcome::Snapshot(
            Ok(SnapshotOutcome::Committed { reference, pushes, .. }),
        ) ==> is_snapshot_report(reference@, pushes@, variable_pairs(environment@)),
{
    let relative = match relative_path(path, root) {
        Some(relative) => relative,
        None => {
            return ChangeOutcome::Outside;
        },
    };
    if is_within(relative.as_str(), METADATA_DIR) {
        return ChangeOutcome::Metadata;
    }
    let repo = match Repo::from_path(root) {
        Ok(repo) => repo.with_environment(copy_variables(environment)),
        Err(error) => {
            return ChangeOutcome::NoRepository(error);
        },
    };
    if covered(repo.is_ignored(relative.as_str())) {
        ChangeOutcome::Ignored
    } else {
        ChangeOutcome::Snapshot(repo.snapshot())
    }
}

/// The registry that watches the given repositories: each path registered
/// in turn, so that a path listed twice is watched once.
pub open spec fn registry_of(paths: Seq<Seq<char>>) -> Seq<Registration<RootHandler>>
    decreases paths.len(),
{
    if paths.len() == 0 {
        Seq::empty()
    } else {
        after_watch(registry_of(paths.drop_last()), paths.last(), RootHandler::Repository)
    }
}

/// The registry of a coordinator: that of the repositories, and the
/// configuration file as one more root where there is one.
pub open spec fn coordinated(paths: Seq<Seq<char>>, config_path: Option<Seq<char>>) -> Seq<
    Registration<RootHandler>,
> {
    match config_path {
        Some(path) => after_watch(registry_of(paths), path, RootHandler::ConfigFile),
        None => registry_of(paths),
    }
}

/// The registry of a configuration watches the listed repositories, each
/// once, and nothing else.
pub proof fn lemma_registry_of(paths: Seq<Seq<char>>)
    ensures
        distinct_roots(registry_of(paths)),
        forall|root: Seq<char>| #[trigger]
            is_registered(registry_of(paths), root) <==> paths.contains(root),
    decreases paths.len(),
{
    if paths.len() > 0 {
        let front = paths.drop_last();
        lemma_registry_of(front);
        lemma_after_watch(registry_of(front), paths.last(), RootHandler::Repository);
        assert forall|root: Seq<char>| #[trigger]
            is_registered(registry_of(paths), root) <==> paths.contains(root) by {
            if paths.contains(root) {
                let i = choose|i: int| 0 <= i < paths.len() && paths[i] == root;
                if i < front.len() {
                    assert(front[i] == root);
                }
            }
            if root != paths.last() && front.contains(root) {
                let i = choose|i: int| 0 <= i < front.len() && front[i] == root;
                assert(paths[i] == root);
            }
            assert(paths[paths.len() - 1] == paths.last());
        }
    } else {
        assert forall|root: Seq<char>| #[trigger]
            is_registered(registry_of(paths), root) <==> paths.contains(root) by {}
    }
}

/// Hot reload, the watch set: once the watch set is swapped for that of a
/// configuration, the roots that are watched are the repositories which
/// that configuration lists and the configuration file, whatever was
/// watched before.
pub proof fn lemma_reload_watches_listed_roots(
    paths: Seq<Seq<char>>,
    config_path: Option<Seq<char>>,
    root: Seq<char>,
)
    ensures
        distinct_roots(coordinated(paths, config_path)),
        is_registered(coordinated(paths, config_path), root) <==> paths.contains(root)
            || config_path == Some(root),
{
    lemma_registry_of(paths);
    match config_path {
        Some(path) => {
            lemma_after_watch(registry_of(paths), path, RootHandler::ConfigFile);
        },
        None => {},
    }
}

/// Hot reload, the effect: after the swap a change below a newly listed
/// root starts that root's debounce, and a change that lies below none of
/// the listed roots, such as one below a root that only the old
/// configuration listed, starts none.
pub proof fn lemma_reload_redirects_events(
    paths: Seq<Seq<char>>,
    config_path: Option<Seq<char>>,
    listed: Seq<char>,
    inside: Seq<char>,
    elsewhere: Seq<char>,
    kind: EventKind,
    now: u64,
)
    requires
        is_change(kind),
        paths.contains(listed),
        path_within(inside, listed),
        forall|i: int| 0 <= i < paths.len() ==> !path_within(elsewhere, #[trigger] paths[i]),
        config_path matches Some(path) ==> !path_within(elsewhere, path),
    ensures
        ({
            let watched = coordinated(paths, config_path);
            &&& position_of(watched, listed) matches Some(at) && after_event(
                watched,
                kind,
                inside,
                now,
            )[at].pending == Some(PendingDebounce { path: inside, since: now })
            &&& after_event(watched, kind, elsewhere, now) == watched
        }),
{
    let watched = coordinated(paths, config_path);
    lemma_reload_watches_listed_roots(paths, config_path, listed);
    assert(is_registered(watched, listed));
    let at = choose|i: int| 0 <= i < watched.len() && (#[trigger] watched[i]).root == listed;
    lemma_position_of(watched, listed, at);
    assert forall|i: int| 0 <= i < watched.len() implies !path_within(
        elsewhere,
        (#[trigger] watched[i]).root,
    ) by {
        let root = watched[i].root;
        lemma_reload_watches_listed_roots(paths, config_path, root);
        assert(is_registered(watched, root));
        if paths.contains(root) {
            let j = choose|j: int| 0 <= j < paths.len() && paths[j] == root;
            assert(!path_within(elsewhere, paths[j]));
        }
    }
    lemma_event_outside_every_root(watched, kind, elsewhere, now);
}

/// The coordinator: the watch set of one configuration, which can be
/// swapped as a whole.
pub struct RepoWatcher {
    watcher: Watcher<RootHandler>,
    config_path: Option<String>,
}

impl RepoWatcher {
    /// The registry of watched roots.
    pub closed spec fn view(&self) -> Seq<Registration<RootHandler>> {
        self.watcher@
    }

    /// The path of the configuration file that is watched, if any.
    pub closed spec fn config_file(&self) -> Option<Seq<char>> {
        match self.config_path {
            Some(path) => Some(path@),
            None => None,
        }
    }

    /// The quiet period, in milliseconds.
    pub closed spec fn period(&self) -> u64 {
        self.watcher.period()
    }

    /// How changes are detected.
    pub closed spec fn watch_mode(&self) -> WatchMode {
        self.watcher.watch_mode()
    }

    /// The invariant of the coordinator.
    pub closed spec fn well_formed(&self) -> bool {
        self.watcher.well_formed()
    }

    /// Builds the registry that watches the repositories of `config`.
    pub fn watcher(config: &WatchConfig) -> (watcher: Watcher<RootHandler>)
        ensures
            watcher.well_formed(),
            watcher@ == registry_of(config.paths()),
            watcher.period() == config.debounce_period,
            watcher.watch_mode() == config.mode,
    {
        let mut watcher: Watcher<RootHandler> = Watcher::new(config.mode, config.debounce_period);
        let ghost paths = config.paths();
        let mut i: usize = 0;
        assert(paths.take(0) =~= Seq::<Seq<char>>::empty());
        while i < config.repos.len()
            invariant
                paths == config.paths(),
                i <= config.repos@.len(),
                watcher.well_formed(),
                watcher@ == registry_of(paths.take(i as int)),
                watcher.period() == config.debounce_period,
                watcher.watch_mode() == config.mode,
            decreases config.repos@.len() - i,
        {
            proof {
                assert(paths.take(i + 1).drop_last() =~= paths.take(i as int));
                assert(paths.take(i + 1).last() == config.repos@[i as int].path@);
            }
            watcher.watch_path(config.repos[i].path.clone(), RootHandler::Repository);
            i += 1;
        }
        assert(paths.take(i as int) =~= paths);
        watcher
    }

    /// A coordinator for the given configuration, with no configuration
    /// file to watch.
    pub fn new(config: WatchConfig) -> (coordinator: Self)
        ensures
            coordinator.well_formed(),
            coordinator@ == coordinated(config.paths(), None),
            coordinator.config_file() is None,
            coordinator.period() == config.debounce_period,
            coordinator.watch_mode() == config.mode,
    {
        RepoWatcher { watcher: Self::watcher(&config), config_path: None }
    }

    /// A coordinator for the configuration that was loaded from
    /// `config_path`, which watches that file as one more root. Where
    /// loading failed, so does this, with the same error.
    pub fn with_config(config_path: &str, loaded: Result<WatchConfig, Error>) -> (coordinator:
        Result<Self, Error>)
        ensures
            match loaded {
                Ok(config) => coordinator matches Ok(c) && c.well_formed() && c@ == coordinated(
                    config.paths(),
                    Some(config_path@),
                ) && c.config_file() == Some(config_path@) && c.period()
                    == config.debounce_period && c.watch_mode() == config.mode,
                Err(error) => coordinator matches Err(e) && e == error,
            },
    {
        match loaded {
            Ok(config) => {
                let mut coordinator = RepoWatcher {
                    watcher: Self::watcher(&config),
                    config_path: None,
                };
                coordinator.watch_config(config_path);
                Ok(coordinator)
            },
            Err(error) => Err(error),
        }
    }

    /// Watches the configuration file at `config_path` as one more root.
    pub fn watch_config(&mut self, config_path: &str)
        requires
            old(self).well_formed(),
        ensures
            final(self).well_formed(),
            final(self)@ == after_watch(old(self)@, config_path@, RootHandler::ConfigFile),
            final(self).config_file() == Some(config_path@),
            final(self).period() == old(self).period(),
            final(self).watch_mode() == old(self).watch_mode(),
    {
        self.watcher.watch_path(config_path.to_owned(), RootHandler::ConfigFile);
        self.config_path = Some(config_path.to_owned());
    }

    /// Swaps the whole watch set for that of a configuration that was just
    /// read again.
    ///
    /// With a configuration, the registry is built anew from it, pending
    /// debounces of the old one are gone, and the configuration file is
    /// watched again. Where reading failed, nothing changes and the error
    /// comes back.
    pub fn reload(&mut self, loaded: Result<WatchConfig, Error>) -> (swapped: Result<(), Error>)
        requires
            old(self).well_formed(),
        ensures
            final(self).well_formed(),
            final(self).config_file() == old(self).config_file(),
            match loaded {
                Ok(config) => swapped is Ok && final(self)@ == coordinated(
                    config.paths(),
                    old(self).config_file(),
                ) && final(self).period() == config.debounce_period && final(self).watch_mode()
                    == config.mode,
                Err(error) => swapped matches Err(e) && e == error && final(self)@ == old(self)@
                    && final(self).period() == old(self).period() && final(self).watch_mode()
                    == old(self).watch_mode(),
            },
    {
        match loaded {
            Ok(config) => {
                let mut watcher = Self::watcher(&config);
                match &self.config_path {
                    Some(path) => {
                        watcher.watch_path(path.clone(), RootHandler::ConfigFile);
                    },
                    None => {},
                }
                self.watcher = watcher;
                Ok(())
            },
            Err(error) => Err(error),
        }
    }

    /// The watched roots, in the order of the registry.
    pub fn roots(&self) -> (roots: Vec<String>)
        requires
            self.well_formed(),
        ensures
            roots@.len() == self@.len(),
            forall|i: int| 0 <= i < roots@.len() ==> (#[trigger] roots@[i])@ == self@[i].root,
    {
        self.watcher.roots()
    }

    /// The quiet period, in milliseconds.
    pub fn debounce_period(&self) -> (period: u64)
        ensures
            period == self.period(),
    {
        self.watcher.debounce_period()
    }

    /// How changes are detected.
    pub fn mode(&self) -> (mode: WatchMode)
        ensures
            mode == self.watch_mode(),
    {
        self.watcher.mode()
    }

    /// Takes the tasks that are due at time `now`: one for each root whose
    /// last change lies a full quiet period back, in the order of the
    /// registry. Their debounces are over.
    pub fn take_due(&mut self, now: u64) -> (tasks: Vec<Task>)
        requires
            old(self).well_formed(),
        ensures
            final(self).well_formed(),
            final(self)@ == after_due(old(self)@, old(self).period(), now),
            final(self).config_file() == old(self).config_file(),
            final(self).period() == old(self).period(),
            final(self).watch_mode() == old(self).watch_mode(),
            tasks@.len() == due_calls(old(self)@, old(self).period(), now).len(),
            forall|k: int|
                0 <= k < tasks@.len() ==> is_task_of(
                    old(self)@,
                    due_calls(old(self)@, old(self).period(), now)[k],
                    #[trigger] tasks@[k],
                ),
    {
        let ghost before = self@;
        let ghost period = self.period();
        let ghost calls = due_calls(before, period, now);
        proof {
            self.watcher.lemma_distinct();
        }
        let mut due = self.watcher.take_due(now);
        proof {
            lemma_due_calls_are_owed(before, period, now);
            assert(calls_of(due@).len() == due@.len());
        }
        let mut tasks: Vec<Task> = Vec::new();
        let total = due.len();
        let mut k: usize = 0;
        while due.len() > 0
            invariant
                self.well_formed(),
                self@ == after_due(before, period, now),
                self.config_file() == old(self).config_file(),
                self.period() == period,
                calls == due_calls(before, period, now),
                distinct_roots(before),
                calls.len() == total,
                k + due@.len() == total,
                calls_of(due@) == calls.skip(k as int),
                tasks@.len() == k,
                forall|j: int| 0 <= j < calls.len() ==> is_owed(before, period, now, calls[j]),
                forall|j: int| 0 <= j < k ==> is_task_of(before, calls[j], #[trigger] tasks@[j]),
            decreases due@.len(),
        {
            let ghost rest = due@;
            let invocation = due.remove(0);
            proof {
                assert(invocation@ == calls_of(rest)[0]);
                assert(invocation@ == calls[k as int]);
                assert forall|j: int| 0 <= j < due@.len() implies calls_of(due@)[j] == calls.skip(
                    k + 1,
                )[j] by {
                    assert(due@[j] == rest[j + 1]);
                    assert(calls_of(rest)[j + 1] == calls.skip(k as int)[j + 1]);
                }
                assert(calls_of(due@) =~= calls.skip(k + 1));
                assert(is_owed(before, period, now, calls[k as int]));
                let i = choose|i: int|
                    0 <= i < before.len() && has_due(#[trigger] before[i], period, now)
                        && calls[k as int] == (Call {
                        path: before[i].pending->0.path,
                        root: before[i].root,
                    });
                assert(self@[i].root == before[i].root);
                assert(self@[i].handler == before[i].handler);
                self.watcher.lemma_distinct();
                lemma_position_of(before, invocation.root@, i);
                lemma_position_of(self@, invocation.root@, i);
            }
            let kind = match self.watcher.handler(invocation.root.as_str()) {
                Some(RootHandler::ConfigFile) => RootHandler::ConfigFile,
                _ => RootHandler::Repository,
            };
            let task = match kind {
                RootHandler::Repository => Task::Snapshot {
                    path: invocation.path,
                    root: invocation.root,
                },
                RootHandler::ConfigFile => Task::Reload { path: invocation.path },
            };
            tasks.push(task);
            k += 1;
        }
        tasks
    }

    /// Reports a raw event on `path` that arrived at time `now`; see
    /// `Watcher::on_event`.
    pub fn on_event(&mut self, kind: EventKind, path: &str, now: u64) -> (matched: usize)
        requires
            old(self).well_formed(),
        ensures
            final(self).well_formed(),
            final(self)@ == after_event(old(self)@, kind, path@, now),
            final(self).config_file() == old(self).config_file(),
            final(self).period() == old(self).period(),
            final(self).watch_mode() == old(self).watch_mode(),
            matched == resets(old(self)@, kind, path@),
            matched == 0 <==> !is_change(kind) || forall|i: int|
                0 <= i < old(self)@.len() ==> !path_within(path@, #[trigger] old(self)@[i].root),
    {
        self.watcher.on_event(kind, path, now)
    }
}

} // verus!
