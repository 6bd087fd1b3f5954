//! A watcher that is driven by the messages of one channel: raw events,
//! ticks of the clock, and the request to stop. Every message carries the
//! time at which it arrived. A change starts the quiet period of each
//! repository that holds its path anew and plans nothing for them; a
//! repository is planned for a snapshot once its last change lies a full
//! quiet period back. The quiet period is that of the watch mode.
use crate::error::Error;
use crate::repo::{
    copy_variables, is_snapshot_result, variable_pairs, Repo, SnapshotOutcome,
};
use crate::repo_watcher::{coordinated, is_task_of, RepoWatcher, RootHandler, Task};
use crate::watcher::{
    after_due, after_event, all_touch, calls_during, distinct_roots, due_calls, forwards, has_due,
    is_burst, is_change, lemma_burst_fires_once, lemma_burst_stays_pending, lemma_position_of,
    lemma_run_keeps_roots, path_within, position_of, run, Arrival, Call, EventKind, Registration,
};
use vstd::prelude::*;
use vstd::string::*;

verus! {

/// The time between two scans where none is configured: five minutes, in
/// milliseconds.
pub fn default_poll_period() -> (period: u64)
    ensures
        period == 5 * 60 * 1000,
{
    300000
}

/// The quiet period where none is configured: one minute, in milliseconds.
pub fn default_event_debounce_period() -> (period: u64)
    ensures
        period == 60 * 1000,
{
    60000
}

/// How changes are detected, with the period that belongs to each way.
#[derive(Clone, Copy, Debug, PartialEq, Eq, Structural)]
pub enum WatchMode {
    /// The roots are scanned again every `period` milliseconds.
    Poll { period: u64 },
    /// The operating system reports changes; `debounce_period` is the quiet
    /// period in milliseconds.
    Event { debounce_period: u64 },
}

impl Default for WatchMode {
    fn default() -> (mode: Self)
        ensures
            mode == (WatchMode::Event { debounce_period: 60000 }),
    {
        WatchMode::Event { debounce_period: default_event_debounce_period() }
    }
}

/// One watched repository.
#[derive(Debug)]
pub struct RepoConfig {
    /// The canonical, absolute path of its working directory.
    pub path: String,
}

/// What to watch and how.
#[derive(Debug)]
pub struct WatchConfig {
    /// The repositories to watch.
    pub repos: Vec<RepoConfig>,
    /// How changes are detected.
    pub mode: WatchMode,
}

impl Default for WatchConfig {
    fn default() -> (config: Self)
        ensures
            config.repos@.len() == 0,
            config.mode == (WatchMode::Event { debounce_period: 60000 }),
    {
        WatchConfig { repos: Vec::new(), mode: WatchMode::default() }
    }
}

/// A raw event: what happened, to which paths, and when it arrived, in
/// milliseconds.
#[derive(Debug)]
pub struct RawEvent {
    pub kind: EventKind,
    pub paths: Vec<String>,
    pub at: u64,
}

/// What the watcher takes from its channel.
#[derive(Debug)]
pub enum ChannelMessage {
    /// A raw event, or the text of the error that the event source
    /// reported in its place.
    Event(Result<RawEvent, String>),
    /// The time has come to this many milliseconds.
    Tick(u64),
    /// The request to stop watching.
    Stop,
}

/// What is due after a quiet period.
#[derive(Debug)]
pub struct EventPlan {
    /// The repositories to snapshot: each watched repository whose last
    /// change lies a full quiet period back, once, in the order in which
    /// they are watched.
    pub roots: Vec<String>,
    /// Whether the configuration file changed a full quiet period back and
    /// is to be read again.
    pub reload_config: bool,
}

/// What the loop does after a message.
#[derive(Debug)]
pub enum Step {
    /// Stop watching and leave the loop.
    Stop,
    /// Nothing: nothing is due.
    Skip,
    /// Carry out the plan and go on.
    Act(EventPlan),
}

/// The texts of a list of strings.
pub open spec fn texts(list: Seq<String>) -> Seq<Seq<char>> {
    Seq::new(list.len(), |i: int| list[i]@)
}

/// The paths of a list of repositories.
pub open spec fn repo_paths(repos: Seq<RepoConfig>) -> Seq<Seq<char>> {
    Seq::new(repos.len(), |i: int| repos[i].path@)
}

/// The quiet period of a watch mode, in milliseconds: the debounce period
/// in event mode, the time between two scans in poll mode.
pub open spec fn quiet_period(mode: WatchMode) -> u64 {
    match mode {
        WatchMode::Poll { period } => period,
        WatchMode::Event { debounce_period } => debounce_period,
    }
}

/// How the event source detects changes in a watch mode.
pub open spec fn source_mode(mode: WatchMode) -> crate::watcher::WatchMode {
    match mode {
        WatchMode::Poll { period } => crate::watcher::WatchMode::Poll { interval: period },
        WatchMode::Event { .. } => crate::watcher::WatchMode::Event,
    }
}

/// The registry after an event on several paths: every root that holds one
/// of the paths has started its quiet period anew.
pub open spec fn after_events(
    entries: Seq<Registration<RootHandler>>,
    kind: EventKind,
    paths: Seq<Seq<char>>,
    now: u64,
) -> Seq<Registration<RootHandler>>
    decreases paths.len(),
{
    if paths.len() == 0 {
        entries
    } else {
        after_event(after_events(entries, kind, paths.drop_last(), now), kind, paths.last(), now)
    }
}

/// The repositories among the roots of the calls that are due, in the
/// order of the calls.
pub open spec fn planned_roots(entries: Seq<Registration<RootHandler>>, calls: Seq<Call>) -> Seq<
    Seq<char>,
>
    decreases calls.len(),
{
    if calls.len() == 0 {
        Seq::empty()
    } else {
        let before = planned_roots(entries, calls.drop_last());
        let root = calls.last().root;
        match position_of(entries, root) {
            Some(at) => if entries[at].handler == RootHandler::Repository {
                before.push(root)
            } else {
                before
            },
            None => before,
        }
    }
}

/// Whether the configuration file is among the roots of the calls that are
/// due.
pub open spec fn planned_reload(entries: Seq<Registration<RootHandler>>, calls: Seq<Call>) -> bool
    decreases calls.len(),
{
    if calls.len() == 0 {
        false
    } else {
        let before = planned_reload(entries, calls.drop_last());
        match position_of(entries, calls.last().root) {
            Some(at) => before || entries[at].handler == RootHandler::ConfigFile,
            None => before,
        }
    }
}

/// Whether `step` answers what is due in the registry at time `now`: a
/// plan of the repositories whose quiet period is over, and of whether the
/// configuration file's is; no plan where none is over.
pub open spec fn answers_due(
    step: Step,
    entries: Seq<Registration<RootHandler>>,
    period: u64,
    now: u64,
) -> bool {
    let calls = due_calls(entries, period, now);
    let roots = planned_roots(entries, calls);
    let reload = planned_reload(entries, calls);
    match step {
        Step::Act(plan) => texts(plan.roots@) == roots && plan.reload_config == reload && (
        roots.len() > 0 || reload),
        Step::Skip => roots.len() == 0 && !reload,
        Step::Stop => false,
    }
}

/// How often `root` occurs in a list of roots.
pub open spec fn times(roots: Seq<Seq<char>>, root: Seq<char>) -> nat
    decreases roots.len(),
{
    if roots.len() == 0 {
        0
    } else {
        let last: nat = if roots.last() == root {
            1
        } else {
            0
        };
        times(roots.drop_last(), root) + last
    }
}

/// An event on one path is what the registry of `watcher` knows as an
/// event.
pub proof fn lemma_single_path(
    entries: Seq<Registration<RootHandler>>,
    kind: EventKind,
    path: Seq<char>,
    now: u64,
)
    ensures
        after_events(entries, kind, seq![path], now) == after_event(entries, kind, path, now),
{
    assert(seq![path].drop_last() =~= Seq::<Seq<char>>::empty());
    assert(after_events(entries, kind, seq![path].drop_last(), now) == entries);
}

/// Among the first `n` registrations, a repository is planned once where
/// its quiet period is over, and not at all where it is not.
proof fn lemma_planned_among(
    entries: Seq<Registration<RootHandler>>,
    period: u64,
    now: u64,
    at: int,
    n: int,
)
    requires
        distinct_roots(entries),
        0 <= at < entries.len(),
        0 <= n <= entries.len(),
        entries[at].handler == RootHandler::Repository,
    ensures
        times(
            planned_roots(entries, due_calls(entries.take(n), period, now)),
            entries[at].root,
        ) == (if at < n && has_due(entries[at], period, now) {
            1nat
        } else {
            0nat
        }),
    decreases n,
{
    let prefix = entries.take(n);
    if n > 0 {
        let entry = entries[n - 1];
        assert(prefix.drop_last() =~= entries.take(n - 1));
        assert(prefix.last() == entry);
        lemma_planned_among(entries, period, now, at, n - 1);
        let before = due_calls(entries.take(n - 1), period, now);
        if has_due(entry, period, now) {
            let call = Call { path: entry.pending->0.path, root: entry.root };
            assert(before.push(call).drop_last() =~= before);
            lemma_position_of(entries, entry.root, n - 1);
            if entry.handler == RootHandler::Repository {
                let roots = planned_roots(entries, before);
                assert(roots.push(entry.root).drop_last() =~= roots);
            }
        }
    }
}

/// A repository is planned once where its quiet period is over, and not at
/// all where it is not.
pub proof fn lemma_planned_when_due(
    entries: Seq<Registration<RootHandler>>,
    period: u64,
    now: u64,
    at: int,
)
    requires
        distinct_roots(entries),
        0 <= at < entries.len(),
        entries[at].handler == RootHandler::Repository,
    ensures
        times(planned_roots(entries, due_calls(entries, period, now)), entries[at].root) == (
        if has_due(entries[at], period, now) {
            1nat
        } else {
            0nat
        }),
{
    lemma_planned_among(entries, period, now, at, entries.len() as int);
    assert(entries.take(entries.len() as int) =~= entries);
}

/// Debounce for a burst: of changes to one repository that follow each
/// other by less than the quiet period, none is answered with a plan that
/// lists the repository, neither when it arrives nor at any time before
/// the quiet period after the last of them is over; the first plan
/// thereafter lists the repository once.
pub proof fn lemma_burst_is_planned_once(
    entries: Seq<Registration<RootHandler>>,
    period: u64,
    arrivals: Seq<Arrival>,
    at: int,
    early: u64,
    end: u64,
)
    requires
        distinct_roots(entries),
        0 <= at < entries.len(),
        entries[at].handler == RootHandler::Repository,
        entries[at].pending is None,
        arrivals.len() >= 1,
        all_touch(arrivals, entries[at].root),
        is_burst(arrivals, period),
        arrivals.last().at <= early < arrivals.last().at + period,
        arrivals.last().at + period <= end,
    ensures
        forall|k: int|
            0 <= k < arrivals.len() ==> times(
                planned_roots(
                    run(entries, period, arrivals.take(k)),
                    due_calls(
                        run(entries, period, arrivals.take(k)),
                        period,
                        (#[trigger] arrivals[k]).at,
                    ),
                ),
                entries[at].root,
            ) == 0,
        times(
            planned_roots(
                run(entries, period, arrivals),
                due_calls(run(entries, period, arrivals), period, early),
            ),
            entries[at].root,
        ) == 0,
        times(
            planned_roots(
                run(entries, period, arrivals),
                due_calls(run(entries, period, arrivals), period, end),
            ),
            entries[at].root,
        ) == 1,
{
    let root = entries[at].root;
    assert forall|k: int| 0 <= k < arrivals.len() implies times(
        planned_roots(
            run(entries, period, arrivals.take(k)),
            due_calls(run(entries, period, arrivals.take(k)), period, (#[trigger] arrivals[k]).at),
        ),
        root,
    ) == 0 by {
        let upto = arrivals.take(k + 1);
        let earlier = arrivals.take(k);
        let state = run(entries, period, earlier);
        assert(upto.drop_last() =~= earlier);
        assert(upto.last() == arrivals[k]);
        assert(all_touch(upto, root)) by {
            assert forall|i: int| 0 <= i < upto.len() implies is_change((#[trigger] upto[i]).kind)
                && path_within(upto[i].path, root) by {
                assert(upto[i] == arrivals[i]);
            }
        }
        assert(is_burst(upto, period)) by {
            assert forall|i: int, j: int|
                0 <= i && j == i + 1 && j < upto.len() implies (#[trigger] upto[i]).at <= (
            #[trigger] upto[j]).at < upto[i].at + period by {
                assert(upto[i] == arrivals[i]);
                assert(upto[j] == arrivals[j]);
            }
        }
        lemma_run_keeps_roots(entries, period, earlier);
        lemma_burst_stays_pending(entries, period, upto, at);
        assert(calls_during(entries, period, upto, at) == calls_during(
            entries,
            period,
            earlier,
            at,
        ) + (if has_due(state[at], period, arrivals[k].at) {
            1nat
        } else {
            0nat
        }));
        lemma_keeps_distinct(entries, state);
        lemma_planned_when_due(state, period, arrivals[k].at, at);
    }
    let last = run(entries, period, arrivals);
    lemma_burst_fires_once(entries, period, arrivals, at, end);
    lemma_run_keeps_roots(entries, period, arrivals);
    lemma_keeps_distinct(entries, last);
    lemma_planned_when_due(last, period, early, at);
    lemma_planned_when_due(last, period, end, at);
}

/// A registry with the roots of one that is free of duplicates is free of
/// duplicates.
proof fn lemma_keeps_distinct(
    entries: Seq<Registration<RootHandler>>,
    later: Seq<Registration<RootHandler>>,
)
    requires
        distinct_roots(entries),
        later.len() == entries.len(),
        forall|i: int| 0 <= i < entries.len() ==> (#[trigger] later[i]).root == entries[i].root,
    ensures
        distinct_roots(later),
{
    assert forall|i: int, j: int|
        0 <= i < later.len() && 0 <= j < later.len() && later[i].root
            == later[j].root implies i == j by {
        assert(entries[i].root == entries[j].root);
    }
}

/// Plans what the due tasks ask for.
fn plan_tasks(
    tasks: Vec<Task>,
    Ghost(entries): Ghost<Seq<Registration<RootHandler>>>,
    Ghost(calls): Ghost<Seq<Call>>,
) -> (plan: EventPlan)
    requires
        tasks@.len() == calls.len(),
        forall|k: int| 0 <= k < tasks@.len() ==> is_task_of(entries, calls[k], #[trigger] tasks@[k]),
    ensures
        texts(plan.roots@) == planned_roots(entries, calls),
        plan.reload_config == planned_reload(entries, calls),
{
    let mut tasks = tasks;
    let ghost all = tasks@;
    let mut roots: Vec<String> = Vec::new();
    let mut reload_config = false;
    let mut k: usize = 0;
    let total = tasks.len();
    assert(calls.take(0) =~= Seq::<Call>::empty());
    assert(texts(roots@) =~= Seq::<Seq<char>>::empty());
    while tasks.len() > 0
        invariant
            all.len() == calls.len(),
            total == all.len(),
            k + tasks@.len() == total,
            tasks@ == all.skip(k as int),
            forall|j: int| 0 <= j < all.len() ==> is_task_of(entries, calls[j], #[trigger] all[j]),
            texts(roots@) == planned_roots(entries, calls.take(k as int)),
            reload_config == planned_reload(entries, calls.take(k as int)),
        decreases tasks@.len(),
    {
        let ghost before = texts(roots@);
        let ghost rest = tasks@;
        let task = tasks.remove(0);
        proof {
            assert(task == all[k as int]);
            assert(tasks@ =~= all.skip(k + 1));
            assert(calls.take(k + 1).drop_last() =~= calls.take(k as int));
            assert(calls.take(k + 1).last() == calls[k as int]);
            assert(is_task_of(entries, calls[k as int], all[k as int]));
        }
        match task {
            Task::Snapshot { path, root } => {
                roots.push(root);
                assert(texts(roots@) =~= before.push(calls[k as int].root));
            },
            Task::Reload { path } => {
                reload_config = true;
            },
        }
        k += 1;
    }
    assert(calls.take(k as int) =~= calls);
    EventPlan { roots, reload_config }
}

/// A watcher that debounces what its channel brings.
pub struct Watcher {
    config: WatchConfig,
    coordinator: RepoWatcher,
}

impl Watcher {
    /// The registry of watched roots, each with its pending debounce.
    pub closed spec fn registry(&self) -> Seq<Registration<RootHandler>> {
        self.coordinator@
    }

    /// The quiet period, in milliseconds.
    pub closed spec fn period(&self) -> u64 {
        self.coordinator.period()
    }

    /// The paths of the watched repositories, as the configuration lists
    /// them.
    pub closed spec fn roots(&self) -> Seq<Seq<char>> {
        repo_paths(self.config.repos@)
    }

    /// How changes are detected.
    pub closed spec fn watch_mode(&self) -> WatchMode {
        self.config.mode
    }

    /// The path of the configuration file, where the watcher has one.
    pub closed spec fn config_file(&self) -> Option<Seq<char>> {
        self.coordinator.config_file()
    }

    /// The invariant of the watcher: the registry is well-formed and its
    /// quiet period is that of the watch mode.
    pub closed spec fn well_formed(&self) -> bool {
        &&& self.coordinator.well_formed()
        &&& self.coordinator.period() == quiet_period(self.config.mode)
    }

    /// The configuration of the coordinator that debounces for `config`.
    fn debounced(config: &WatchConfig) -> (plain: crate::repo_watcher::WatchConfig)
        ensures
            plain.paths() == repo_paths(config.repos@),
            plain.debounce_period == quiet_period(config.mode),
            plain.mode == source_mode(config.mode),
    {
        let mut repos: Vec<crate::repo_watcher::RepoConfig> = Vec::new();
        let mut i: usize = 0;
        while i < config.repos.len()
            invariant
                i <= config.repos@.len(),
                repos@.len() == i,
                forall|k: int| 0 <= k < i ==> (#[trigger] repos@[k]).path@ == config.repos@[k].path@,
            decreases config.repos@.len() - i,
        {
            repos.push(crate::repo_watcher::RepoConfig { path: config.repos[i].path.clone() });
            i += 1;
        }
        let plain = match config.mode {
            WatchMode::Poll { period } => crate::repo_watcher::WatchConfig {
                repos,
                mode: crate::watcher::WatchMode::Poll { interval: period },
                debounce_period: period,
            },
            WatchMode::Event { debounce_period } => crate::repo_watcher::WatchConfig {
                repos,
                mode: crate::watcher::WatchMode::Event,
                debounce_period,
            },
        };
        assert(plain.paths() =~= repo_paths(config.repos@));
        plain
    }

    /// A watcher for the configuration that was loaded from `config_path`,
    /// which watches that file as one more root. Where loading failed, so
    /// does this, with the same error.
    pub fn from_config_path(config_path: String, loaded: Result<WatchConfig, Error>) -> (watcher:
        Result<Self, Error>)
        ensures
            match loaded {
                Ok(config) => watcher matches Ok(w) && w.well_formed() && w.registry()
                    == coordinated(repo_paths(config.repos@), Some(config_path@)) && w.roots()
                    == repo_paths(config.repos@) && w.watch_mode() == config.mode && w.period()
                    == quiet_period(config.mode) && w.config_file() == Some(config_path@),
                Err(error) => watcher matches Err(e) && e == error,
            },
    {
        match loaded {
            Ok(config) => {
                let plain = Self::debounced(&config);
                match RepoWatcher::with_config(config_path.as_str(), Ok(plain)) {
                    Ok(coordinator) => Ok(Watcher { config, coordinator }),
                    Err(error) => Err(error),
                }
            },
            Err(error) => Err(error),
        }
    }

    /// A watcher for the given configuration, with no configuration file.
    /// Nothing is pending.
    pub fn new(config: WatchConfig) -> (watcher: Self)
        ensures
            watcher.well_formed(),
            watcher.registry() == coordinated(repo_paths(config.repos@), None),
            watcher.roots() == repo_paths(config.repos@),
            watcher.watch_mode() == config.mode,
            watcher.period() == quiet_period(config.mode),
            watcher.config_file() is None,
    {
        let plain = Self::debounced(&config);
        Watcher { config, coordinator: RepoWatcher::new(plain) }
    }

    /// The configuration that is in force.
    pub fn config(&self) -> (config: &WatchConfig)
        ensures
            repo_paths(config.repos@) == self.roots(),
            config.mode == self.watch_mode(),
    {
        &self.config
    }

    /// The quiet period, in milliseconds.
    pub fn debounce_period(&self) -> (period: u64)
        ensures
            period == self.period(),
    {
        self.coordinator.debounce_period()
    }

    /// Takes what is due at time `now` and plans it.
    fn due(&mut self, now: u64) -> (step: Step)
        requires
            old(self).well_formed(),
        ensures
            final(self).well_formed(),
            final(self).registry() == after_due(old(self).registry(), old(self).period(), now),
            final(self).period() == old(self).period(),
            final(self).config_file() == old(self).config_file(),
            final(self).roots() == old(self).roots(),
            final(self).watch_mode() == old(self).watch_mode(),
            answers_due(step, old(self).registry(), old(self).period(), now),
    {
        let ghost entries = self.registry();
        let ghost calls = due_calls(entries, self.period(), now);
        let tasks = self.coordinator.take_due(now);
        let plan = plan_tasks(tasks, Ghost(entries), Ghost(calls));
        if plan.roots.len() == 0 && !plan.reload_config {
            Step::Skip
        } else {
            Step::Act(plan)
        }
    }

    /// Decides what the loop does after `message`.
    ///
    /// A request to stop ends the loop. An error of the event source, and
    /// an event that is no creation, modification or removal, change
    /// nothing. For a tick and for a change, what is due at the message's
    /// time is planned first: the repositories whose last change lies a
    /// full quiet period back, each once. A change then starts the quiet
    /// period anew at every root that holds one of its paths, so that the
    /// change itself is planned no sooner than a quiet period later.
    pub fn step(&mut self, message: &ChannelMessage) -> (step: Step)
        requires
            old(self).well_formed(),
        ensures
            final(self).well_formed(),
            final(self).period() == old(self).period(),
            final(self).config_file() == old(self).config_file(),
            final(self).roots() == old(self).roots(),
            final(self).watch_mode() == old(self).watch_mode(),
            match message {
                ChannelMessage::Stop => step is Stop && final(self).registry() == old(self).registry(),
                ChannelMessage::Event(Err(_)) => step is Skip && final(self).registry() == old(self).registry(),
                ChannelMessage::Tick(now) => answers_due(
                    step,
                    old(self).registry(),
                    old(self).period(),
                    *now,
                ) && final(self).registry() == after_due(
                    old(self).registry(),
                    old(self).period(),
                    *now,
                ),
                ChannelMessage::Event(Ok(event)) => if is_change(event.kind) {
                    answers_due(step, old(self).registry(), old(self).period(), event.at)
                        && final(self).registry() == after_events(
                        after_due(old(self).registry(), old(self).period(), event.at),
                        event.kind,
                        texts(event.paths@),
                        event.at,
                    )
                } else {
                    step is Skip && final(self).registry() == old(self).registry()
                },
            },
    {
        match message {
            ChannelMessage::Stop => Step::Stop,
            ChannelMessage::Event(Err(_)) => Step::Skip,
            ChannelMessage::Tick(now) => self.due(*now),
            ChannelMessage::Event(Ok(event)) => {
                if !forwards(event.kind) {
                    return Step::Skip;
                }
                let step = self.due(event.at);
                let ghost settled = self.registry();
                let ghost paths = texts(event.paths@);
                let mut i: usize = 0;
                assert(paths.take(0) =~= Seq::<Seq<char>>::empty());
                while i < event.paths.len()
                    invariant
                        i <= event.paths@.len(),
                        paths == texts(event.paths@),
                        self.well_formed(),
                        self.period() == old(self).period(),
                        self.config_file() == old(self).config_file(),
                        self.roots() == old(self).roots(),
                        self.watch_mode() == old(self).watch_mode(),
                        self.registry() == after_events(
                            settled,
                            event.kind,
                            paths.take(i as int),
                            event.at,
                        ),
                    decreases event.paths@.len() - i,
                {
                    proof {
                        assert(paths.take(i + 1).drop_last() =~= paths.take(i as int));
                        assert(paths.take(i + 1).last() == event.paths@[i as int]@);
                    }
                    self.coordinator.on_event(event.kind, event.paths[i].as_str(), event.at);
                    i += 1;
                }
                assert(paths.take(i as int) =~= paths);
                step
            },
        }
    }

    /// Puts a configuration that was just read again in force: the watch
    /// set is that of the new configuration, with its quiet period, and
    /// nothing is pending. Where reading failed, the old one stays and the
    /// error comes back.
    pub fn reload(&mut self, loaded: Result<WatchConfig, Error>) -> (swapped: Result<(), Error>)
        requires
            old(self).well_formed(),
        ensures
            final(self).well_formed(),
            final(self).config_file() == old(self).config_file(),
            match loaded {
                Ok(config) => swapped is Ok && final(self).registry() == coordinated(
                    repo_paths(config.repos@),
                    old(self).config_file(),
                ) && final(self).roots() == repo_paths(config.repos@) && final(self).watch_mode()
                    == config.mode && final(self).period() == quiet_period(config.mode),
                Err(error) => swapped matches Err(e) && e == error && final(self).registry()
                    == old(self).registry() && final(self).roots() == old(self).roots() && final(self).watch_mode() == old(self).watch_mode() && final(self).period() == old(self).period(),
            },
    {
        match loaded {
            Ok(config) => {
                let plain = Self::debounced(&config);
                match self.coordinator.reload(Ok(plain)) {
                    Ok(_) => {
                        self.config = config;
                        Ok(())
                    },
                    Err(error) => Err(error),
                }
            },
            Err(error) => Err(error),
        }
    }

    /// The message that makes the loop stop.
    pub fn stop(&self) -> (message: ChannelMessage)
        ensures
            message is Stop,
    {
        ChannelMessage::Stop
    }
}

/// Takes a snapshot of each of the given repositories, and reports on each
/// in turn: a failure at one does not keep the next from being tried.
/// `environment` holds the variables that branch templates may use besides
/// `BRANCH`.
pub fn snapshot_all(roots: &Vec<String>, environment: &Vec<(String, String)>) -> (results: Vec<
    Result<SnapshotOutcome, Error>,
>)
    ensures
        results@.len() == roots@.len(),
        forall|i: int|
            0 <= i < results@.len() ==> is_snapshot_result(
                #[trigger] results@[i],
                variable_pairs(environment@),
            ),
{
    let mut results: Vec<Result<SnapshotOutcome, Error>> = Vec::new();
    let mut i: usize = 0;
    while i < roots.len()
        invariant
            i <= roots@.len(),
            results@.len() == i,
            forall|k: int|
                0 <= k < i ==> is_snapshot_result(
                    #[trigger] results@[k],
                    variable_pairs(environment@),
                ),
        decreases roots@.len() - i,
    {
        let result = match Repo::from_path(roots[i].as_str()) {
            Ok(repo) => repo.with_environment(copy_variables(environment)).snapshot(),
            Err(error) => Err(error),
        };
        results.push(result);
        i += 1;
    }
    results
}

} // verus!
