//! The watch registry and the debounce dispatcher.
//!
//! A `Watcher` maps watched roots to their handlers and keeps, for each
//! root, at most one pending debounce. It does not wait itself: whoever
//! drives it reports each raw event with the time at which it arrived, and
//! asks at any later time which handlers are due. Times are in milliseconds
//! on one monotonic clock.
use crate::util::{chars_of, occurs_at};
use vstd::prelude::*;
use vstd::string::*;

verus! {

/// How changes are detected.
#[derive(Clone, Copy, Debug, PartialEq, Eq, Structural)]
pub enum WatchMode {
    /// The operating system reports changes as they happen.
    Event,
    /// The roots are scanned again every `interval` milliseconds.
    Poll { interval: u64 },
}

/// What a raw event says happened to a path.
#[derive(Clone, Copy, Debug, PartialEq, Eq, Structural)]
pub enum EventKind {
    /// Something happened, it is not known what.
    Any,
    /// The path was read or opened.
    Access,
    /// The path was created.
    Create,
    /// The path's content or metadata changed.
    Modify,
    /// The path was removed.
    Remove,
    /// Anything else.
    Other,
}

/// What is invoked when a watched root has changed and then stayed quiet.
pub trait Handler {
    /// Called with the path that changed last and with the root it lies in.
    fn handle(&mut self, path: String, root: String);
}

/// Whether an event kind is one that is forwarded: a creation, a
/// modification or a removal.
pub open spec fn is_change(kind: EventKind) -> bool {
    kind is Create || kind is Modify || kind is Remove
}

/// Whether `path` is `root` itself or lies below it. Both are absolute,
/// canonical paths with `/` between their components.
pub open spec fn path_within(path: Seq<char>, root: Seq<char>) -> bool {
    &&& root.is_prefix_of(path)
    &&& (path.len() == root.len() || path[root.len() as int] == '/' || (root.len() > 0
        && root.last() == '/'))
}

/// A debounce that is under way: the path that changed last, and when.
pub ghost struct PendingDebounce {
    pub path: Seq<char>,
    pub since: u64,
}

/// One entry of the registry: a root, its handler, and its pending
/// debounce if it has one.
pub ghost struct Registration<H> {
    pub root: Seq<char>,
    pub handler: H,
    pub pending: Option<PendingDebounce>,
}

/// A handler call that is owed: the path that changed last and the root.
pub ghost struct Call {
    pub path: Seq<char>,
    pub root: Seq<char>,
}

/// Whether a debounce has been quiet for the whole period at time `now`.
pub open spec fn is_due(pending: PendingDebounce, period: u64, now: u64) -> bool {
    now >= pending.since && now - pending.since >= period
}

/// Whether a registration has a debounce that is due.
pub open spec fn has_due<H>(entry: Registration<H>, period: u64, now: u64) -> bool {
    entry.pending is Some && is_due(entry.pending->0, period, now)
}

/// What an event on `path` at time `now` does to one registration: a root
/// that holds the path starts its quiet period anew, any other is left as
/// it is.
pub open spec fn reset<H>(entry: Registration<H>, path: Seq<char>, now: u64) -> Registration<H> {
    if path_within(path, entry.root) {
        Registration { pending: Some(PendingDebounce { path, since: now }), ..entry }
    } else {
        entry
    }
}

/// What asking for the due handlers at time `now` does to one registration:
/// a debounce that is due is over.
pub open spec fn settle<H>(entry: Registration<H>, period: u64, now: u64) -> Registration<H> {
    if has_due(entry, period, now) {
        Registration { pending: None, ..entry }
    } else {
        entry
    }
}

/// The registry after a raw event.
pub open spec fn after_event<H>(
    entries: Seq<Registration<H>>,
    kind: EventKind,
    path: Seq<char>,
    now: u64,
) -> Seq<Registration<H>> {
    if is_change(kind) {
        Seq::new(entries.len(), |i: int| reset(entries[i], path, now))
    } else {
        entries
    }
}

/// The registry after the due handlers were taken at time `now`.
pub open spec fn after_due<H>(entries: Seq<Registration<H>>, period: u64, now: u64) -> Seq<
    Registration<H>,
> {
    Seq::new(entries.len(), |i: int| settle(entries[i], period, now))
}

/// The handler calls that are due at time `now`, in the order of the
/// registry.
pub open spec fn due_calls<H>(entries: Seq<Registration<H>>, period: u64, now: u64) -> Seq<Call>
    decreases entries.len(),
{
    if entries.len() == 0 {
        Seq::empty()
    } else {
        let before = due_calls(entries.drop_last(), period, now);
        let entry = entries.last();
        if has_due(entry, period, now) {
            before.push(Call { path: entry.pending->0.path, root: entry.root })
        } else {
            before
        }
    }
}

/// How many of the registered roots hold `path`.
pub open spec fn holders<H>(entries: Seq<Registration<H>>, path: Seq<char>) -> nat
    decreases entries.len(),
{
    if entries.len() == 0 {
        0
    } else {
        let last: nat = if path_within(path, entries.last().root) {
            1
        } else {
            0
        };
        holders(entries.drop_last(), path) + last
    }
}

/// The number of roots that an event resets: for a change, the roots that
/// hold its path, and for any other event none.
pub open spec fn resets<H>(entries: Seq<Registration<H>>, kind: EventKind, path: Seq<char>) -> nat {
    if is_change(kind) {
        holders(entries, path)
    } else {
        0
    }
}

/// The position of `root` in the registry, if it is registered.
pub open spec fn position_of<H>(entries: Seq<Registration<H>>, root: Seq<char>) -> Option<int> {
    if exists|i: int| 0 <= i < entries.len() && entries[i].root == root {
        Some(choose|i: int| 0 <= i < entries.len() && entries[i].root == root)
    } else {
        None
    }
}

/// Whether no root is registered twice.
pub open spec fn distinct_roots<H>(entries: Seq<Registration<H>>) -> bool {
    forall|i: int, j: int|
        0 <= i < entries.len() && 0 <= j < entries.len() && entries[i].root == entries[j].root
            ==> i == j
}

/// The registry after `root` was registered with `handler`: a root that is
/// there already gets the new handler and keeps its place and its pending
/// debounce, a new one is added at the end.
pub open spec fn after_watch<H>(entries: Seq<Registration<H>>, root: Seq<char>, handler: H) -> Seq<
    Registration<H>,
> {
    match position_of(entries, root) {
        Some(at) => entries.update(at, Registration { handler, ..entries[at] }),
        None => entries.push(Registration { root, handler, pending: None }),
    }
}

/// The registry after `root` was taken out of it.
pub open spec fn after_unwatch<H>(entries: Seq<Registration<H>>, root: Seq<char>) -> Seq<
    Registration<H>,
> {
    match position_of(entries, root) {
        Some(at) => entries.remove(at),
        None => entries,
    }
}

/// Whether two registries hold the same roots with the same pending
/// debounces; their handlers may differ.
pub open spec fn same_schedule<H>(a: Seq<Registration<H>>, b: Seq<Registration<H>>) -> bool {
    &&& a.len() == b.len()
    &&& forall|i: int|
        0 <= i < a.len() ==> (#[trigger] a[i]).root == b[i].root && a[i].pending == b[i].pending
}

/// A raw event as it reaches the dispatcher: what happened, to which path,
/// and when.
pub ghost struct Arrival {
    pub kind: EventKind,
    pub path: Seq<char>,
    pub at: u64,
}

/// The registry after a series of raw events, where at the time of each
/// event the handlers that are due then are taken first.
pub open spec fn run<H>(entries: Seq<Registration<H>>, period: u64, arrivals: Seq<Arrival>) -> Seq<
    Registration<H>,
>
    decreases arrivals.len(),
{
    if arrivals.len() == 0 {
        entries
    } else {
        let event = arrivals.last();
        after_event(
            after_due(run(entries, period, arrivals.drop_last()), period, event.at),
            event.kind,
            event.path,
            event.at,
        )
    }
}

/// How often the handler of the registration at position `at` was due
/// during such a series.
pub open spec fn calls_during<H>(
    entries: Seq<Registration<H>>,
    period: u64,
    arrivals: Seq<Arrival>,
    at: int,
) -> nat
    decreases arrivals.len(),
{
    if arrivals.len() == 0 {
        0
    } else {
        let earlier = arrivals.drop_last();
        let due: nat = if has_due(run(entries, period, earlier)[at], period, arrivals.last().at) {
            1
        } else {
            0
        };
        calls_during(entries, period, earlier, at) + due
    }
}

/// How often the handler of the registration at position `at` is due in
/// all: during the series, and when the due handlers are taken once more
/// at time `end`.
pub open spec fn calls_until<H>(
    entries: Seq<Registration<H>>,
    period: u64,
    arrivals: Seq<Arrival>,
    at: int,
    end: u64,
) -> nat {
    let last: nat = if has_due(run(entries, period, arrivals)[at], period, end) {
        1
    } else {
        0
    };
    calls_during(entries, period, arrivals, at) + last
}

/// Whether every event of the series is a change to a path within `root`.
pub open spec fn all_touch(arrivals: Seq<Arrival>, root: Seq<char>) -> bool {
    forall|i: int|
        0 <= i < arrivals.len() ==> is_change((#[trigger] arrivals[i]).kind) && path_within(
            arrivals[i].path,
            root,
        )
}

/// Whether the events come in the order of their times, each less than a
/// quiet period after the one before.
pub open spec fn is_burst(arrivals: Seq<Arrival>, period: u64) -> bool {
    forall|i: int, j: int|
        0 <= i && j == i + 1 && j < arrivals.len() ==> (#[trigger] arrivals[i]).at <= (
        #[trigger] arrivals[j]).at < arrivals[i].at + period
}

/// Whether the events come in the order of their times, each at least a
/// quiet period after the one before.
pub open spec fn is_spaced(arrivals: Seq<Arrival>, period: u64) -> bool {
    forall|i: int, j: int|
        0 <= i && j == i + 1 && j < arrivals.len() ==> (#[trigger] arrivals[i]).at + period <= (
        #[trigger] arrivals[j]).at
}

/// Says whether an event kind is forwarded to the dispatcher.
pub fn forwards(kind: EventKind) -> (forwarded: bool)
    ensures
        forwarded == is_change(kind),
{
    match kind {
        EventKind::Create | EventKind::Modify | EventKind::Remove => true,
        _ => false,
    }
}

/// Says whether `path` is `root` itself or lies below it.
pub fn is_within(path: &str, root: &str) -> (within: bool)
    ensures
        within == path_within(path@, root@),
{
    let path_chars = chars_of(path);
    let root_chars = chars_of(root);
    assert(path_chars@.skip(0) =~= path_chars@);
    if !occurs_at(&path_chars, 0, &root_chars) {
        return false;
    }
    let n = root_chars.len();
    path_chars.len() == n || path_chars[n] == '/' || (n > 0 && root_chars[n - 1] == '/')
}

/// A change that waits for its root to stay quiet.
pub struct PendingEvent {
    /// The path that changed last.
    pub path: String,
    /// When it changed.
    pub since: u64,
}

/// A handler call that is owed.
#[derive(Debug)]
pub struct Invocation {
    /// The path that changed last.
    pub path: String,
    /// The root that it lies in.
    pub root: String,
}

impl View for PendingEvent {
    type V = PendingDebounce;

    open spec fn view(&self) -> PendingDebounce {
        PendingDebounce { path: self.path@, since: self.since }
    }
}

impl View for Invocation {
    type V = Call;

    open spec fn view(&self) -> Call {
        Call { path: self.path@, root: self.root@ }
    }
}

/// The view of an optional pending event.
pub open spec fn pending_view(pending: Option<PendingEvent>) -> Option<PendingDebounce> {
    match pending {
        Some(event) => Some(event@),
        None => None,
    }
}

/// The views of a list of invocations.
pub open spec fn calls_of(invocations: Seq<Invocation>) -> Seq<Call> {
    Seq::new(invocations.len(), |i: int| invocations[i]@)
}

/// The watch registry with its debounce dispatcher.
pub struct Watcher<H> {
    mode: WatchMode,
    debounce_period: u64,
    roots: Vec<String>,
    handlers: Vec<H>,
    pending: Vec<Option<PendingEvent>>,
}

impl<H> Watcher<H> {
    /// The registry as a sequence of registrations.
    pub closed spec fn view(&self) -> Seq<Registration<H>> {
        Seq::new(
            self.roots@.len(),
            |i: int|
                Registration {
                    root: self.roots@[i]@,
                    handler: self.handlers@[i],
                    pending: pending_view(self.pending@[i]),
                },
        )
    }

    /// The quiet period, in milliseconds.
    pub closed spec fn period(&self) -> u64 {
        self.debounce_period
    }

    /// How changes are detected.
    pub closed spec fn watch_mode(&self) -> WatchMode {
        self.mode
    }

    /// The invariant of the registry: each root has one handler, one
    /// optional pending debounce, and occurs once.
    pub closed spec fn well_formed(&self) -> bool {
        &&& self.handlers@.len() == self.roots@.len()
        &&& self.pending@.len() == self.roots@.len()
        &&& distinct_roots(self@)
    }

    /// In a well-formed registry no root occurs twice.
    pub proof fn lemma_distinct(&self)
        requires
            self.well_formed(),
        ensures
            distinct_roots(self@),
    {
    }

    /// An empty registry.
    pub fn new(mode: WatchMode, debounce_period: u64) -> (watcher: Self)
        ensures
            watcher.well_formed(),
            watcher@ == Seq::<Registration<H>>::empty(),
            watcher.period() == debounce_period,
            watcher.watch_mode() == mode,
    {
        let watcher = Watcher {
            mode,
            debounce_period,
            roots: Vec::new(),
            handlers: Vec::new(),
            pending: Vec::new(),
        };
        assert(watcher@ =~= Seq::<Registration<H>>::empty());
        watcher
    }

    /// How changes are detected.
    pub fn mode(&self) -> (mode: WatchMode)
        ensures
            mode == self.watch_mode(),
    {
        self.mode
    }

    /// The quiet period, in milliseconds.
    pub fn debounce_period(&self) -> (period: u64)
        ensures
            period == self.period(),
    {
        self.debounce_period
    }

    /// The number of registered roots.
    pub fn len(&self) -> (count: usize)
        requires
            self.well_formed(),
        ensures
            count == self@.len(),
    {
        self.roots.len()
    }

    /// Finds the place of `root` in the registry.
    fn find(&self, root: &str) -> (at: Option<usize>)
        requires
            self.well_formed(),
        ensures
            match at {
                Some(i) => i < self@.len() && self@[i as int].root == root@ && position_of(
                    self@,
                    root@,
                ) == Some(i as int),
                None => position_of(self@, root@) is None,
            },
    {
        let mut i: usize = 0;
        while i < self.roots.len()
            invariant
                self.well_formed(),
                i <= self.roots@.len(),
                forall|k: int| 0 <= k < i ==> self@[k].root != root@,
            decreases self.roots@.len() - i,
        {
            if crate::util::same_text(self.roots[i].as_str(), root) {
                assert(self@[i as int].root == root@);
                return Some(i);
            }
            i += 1;
        }
        None
    }

    /// Registers `root` with `handler`. A root that is registered already
    /// gets the new handler in place of the old one.
    pub fn watch_path(&mut self, root: String, handler: H)
        requires
            old(self).well_formed(),
        ensures
            final(self).well_formed(),
            final(self)@ == after_watch(old(self)@, root@, handler),
            final(self).period() == old(self).period(),
            final(self).watch_mode() == old(self).watch_mode(),
    {
        let ghost before = self@;
        match self.find(root.as_str()) {
            Some(at) => {
                self.handlers.set(at, handler);
                assert(self@ =~= before.update(
                    at as int,
                    Registration { handler, ..before[at as int] },
                ));
            },
            None => {
                self.roots.push(root);
                self.handlers.push(handler);
                self.pending.push(None);
                assert(self@ =~= before.push(Registration { root: root@, handler, pending: None }));
            },
        }
    }

    /// Takes `root` out of the registry, with its pending debounce, and
    /// hands back its handler if it was registered.
    pub fn unwatch_path(&mut self, root: &str) -> (handler: Option<H>)
        requires
            old(self).well_formed(),
        ensures
            final(self).well_formed(),
            final(self)@ == after_unwatch(old(self)@, root@),
            match position_of(old(self)@, root@) {
                Some(at) => handler == Some(old(self)@[at].handler),
                None => handler is None,
            },
            final(self).period() == old(self).period(),
            final(self).watch_mode() == old(self).watch_mode(),
    {
        let ghost before = self@;
        match self.find(root) {
            Some(at) => {
                self.roots.remove(at);
                let handler = self.handlers.remove(at);
                self.pending.remove(at);
                assert(self@ =~= before.remove(at as int));
                Some(handler)
            },
            None => None,
        }
    }

    /// Reports a raw event on `path` that arrived at time `now`.
    ///
    /// An event that is no creation, modification or removal is dropped.
    /// Otherwise every root that holds the path starts its quiet period
    /// anew from `now`, which cancels the debounce it had; no other root is
    /// touched. The result is the number of roots that hold the path.
    pub fn on_event(&mut self, kind: EventKind, path: &str, now: u64) -> (matched: usize)
        requires
            old(self).well_formed(),
        ensures
            final(self).well_formed(),
            final(self)@ == after_event(old(self)@, kind, path@, now),
            final(self).period() == old(self).period(),
            final(self).watch_mode() == old(self).watch_mode(),
            matched == resets(old(self)@, kind, path@),
            matched == 0 <==> !is_change(kind) || forall|i: int|
                0 <= i < old(self)@.len() ==> !path_within(path@, #[trigger] old(self)@[i].root),
    {
        if !forwards(kind) {
            return 0;
        }
        let ghost before = self@;
        let mut matched: usize = 0;
        let mut i: usize = 0;
        assert(before.take(0) =~= Seq::<Registration<H>>::empty());
        while i < self.roots.len()
            invariant
                self.handlers@.len() == self.roots@.len(),
                self.pending@.len() == self.roots@.len(),
                self@.len() == before.len(),
                i <= self.roots@.len(),
                matched <= i,
                matched == holders(before.take(i as int), path@),
                self.debounce_period == old(self).debounce_period,
                self.mode == old(self).mode,
                forall|k: int| 0 <= k < i ==> self@[k] == reset(before[k], path@, now),
                forall|k: int| i <= k < before.len() ==> self@[k] == before[k],
                matched == 0 <==> forall|k: int|
                    0 <= k < i ==> !path_within(path@, #[trigger] before[k].root),
            decreases self.roots@.len() - i,
        {
            let ghost current = self@;
            proof {
                assert(before.take(i + 1).drop_last() =~= before.take(i as int));
                assert(before.take(i + 1).last() == before[i as int]);
                assert(current[i as int].root == before[i as int].root);
            }
            if is_within(path, self.roots[i].as_str()) {
                assert(path_within(path@, before[i as int].root));
                self.pending.set(i, Some(PendingEvent { path: path.to_owned(), since: now }));
                matched += 1;
                assert forall|k: int| 0 <= k < self@.len() && k != i implies self@[k]
                    == current[k] by {}
                assert(self@[i as int].pending == Some(PendingDebounce { path: path@, since: now }));
            }
            assert(self@[i as int].root == before[i as int].root);
            assert(self@[i as int].handler == before[i as int].handler);
            assert(self@[i as int] == reset(before[i as int], path@, now));
            assert forall|k: int| 0 <= k < i implies self@[k] == reset(before[k], path@, now) by {
                assert(self@[k] == current[k]);
            }
            assert forall|k: int| i < k < before.len() implies self@[k] == before[k] by {
                assert(self@[k] == current[k]);
            }
            i += 1;
        }
        assert(self@ =~= after_event(before, kind, path@, now));
        assert(before.take(i as int) =~= before);
        matched
    }

    /// Takes the handler calls that are due at time `now`: one for each
    /// root whose last change lies a full quiet period back. Their
    /// debounces are over; all others stay as they are.
    pub fn take_due(&mut self, now: u64) -> (due: Vec<Invocation>)
        requires
            old(self).well_formed(),
        ensures
            final(self).well_formed(),
            final(self)@ == after_due(old(self)@, old(self).period(), now),
            calls_of(due@) == due_calls(old(self)@, old(self).period(), now),
            final(self).period() == old(self).period(),
            final(self).watch_mode() == old(self).watch_mode(),
    {
        let ghost before = self@;
        let ghost period = self.debounce_period;
        let mut due: Vec<Invocation> = Vec::new();
        let mut i: usize = 0;
        assert(before.take(0) =~= Seq::<Registration<H>>::empty());
        assert(calls_of(due@) =~= Seq::<Call>::empty());
        while i < self.roots.len()
            invariant
                self.handlers@.len() == self.roots@.len(),
                self.pending@.len() == self.roots@.len(),
                self@.len() == before.len(),
                i <= self.roots@.len(),
                self.debounce_period == period,
                self.mode == old(self).mode,
                forall|k: int| 0 <= k < i ==> self@[k] == settle(before[k], period, now),
                forall|k: int| i <= k < before.len() ==> self@[k] == before[k],
                calls_of(due@) == due_calls(before.take(i as int), period, now),
            decreases self.roots@.len() - i,
        {
            let ghost current = self@;
            let ghost calls = calls_of(due@);
            proof {
                assert(before.take(i + 1).drop_last() =~= before.take(i as int));
                assert(before.take(i + 1).last() == before[i as int]);
            }
            let is_due = match &self.pending[i] {
                Some(event) => now >= event.since && now - event.since >= self.debounce_period,
                None => false,
            };
            if is_due {
                let mut slot: Option<PendingEvent> = None;
                self.pending.set_and_swap(i, &mut slot);
                match slot {
                    Some(event) => {
                        assert(event@ == before[i as int].pending->0);
                        due.push(Invocation { path: event.path, root: self.roots[i].clone() });
                    },
                    None => {},
                }
                assert forall|k: int| 0 <= k < self@.len() && k != i implies self@[k]
                    == current[k] by {}
                assert(calls_of(due@) =~= calls.push(
                    Call { path: before[i as int].pending->0.path, root: before[i as int].root },
                ));
                assert(self@[i as int].pending is None);
            }
            assert(self@[i as int].root == before[i as int].root);
            assert(self@[i as int].handler == before[i as int].handler);
            assert(self@[i as int] == settle(before[i as int], period, now));
            assert forall|k: int| 0 <= k < i implies self@[k] == settle(before[k], period, now) by {
                assert(self@[k] == current[k]);
            }
            assert forall|k: int| i < k < before.len() implies self@[k] == before[k] by {
                assert(self@[k] == current[k]);
            }
            i += 1;
        }
        assert(before.take(i as int) =~= before);
        assert(self@ =~= after_due(before, period, now));
        due
    }

    /// The handler that `root` is registered with.
    pub fn handler(&self, root: &str) -> (handler: Option<&H>)
        requires
            self.well_formed(),
        ensures
            match position_of(self@, root@) {
                Some(at) => handler == Some(&self@[at].handler),
                None => handler is None,
            },
    {
        match self.find(root) {
            Some(at) => Some(&self.handlers[at]),
            None => None,
        }
    }

    /// The registered roots, in the order of the registry.
    pub fn roots(&self) -> (roots: Vec<String>)
        requires
            self.well_formed(),
        ensures
            roots@.len() == self@.len(),
            forall|i: int| 0 <= i < roots@.len() ==> (#[trigger] roots@[i])@ == self@[i].root,
    {
        let mut roots: Vec<String> = Vec::new();
        let mut i: usize = 0;
        while i < self.roots.len()
            invariant
                self.well_formed(),
                i <= self.roots@.len(),
                roots@.len() == i,
                forall|k: int| 0 <= k < i ==> (#[trigger] roots@[k])@ == self@[k].root,
            decreases self.roots@.len() - i,
        {
            roots.push(self.roots[i].clone());
            i += 1;
        }
        roots
    }

    /// Whether `root` is registered.
    pub fn is_watched(&self, root: &str) -> (watched: bool)
        requires
            self.well_formed(),
        ensures
            watched == (position_of(self@, root@) is Some),
    {
        self.find(root).is_some()
    }
}

/// A series of events changes no root and no handler, and it leaves the
/// debounce of the last event pending at every root that holds its path.
pub proof fn lemma_run_keeps_roots<H>(
    entries: Seq<Registration<H>>,
    period: u64,
    arrivals: Seq<Arrival>,
)
    ensures
        run(entries, period, arrivals).len() == entries.len(),
        forall|i: int|
            0 <= i < entries.len() ==> (#[trigger] run(entries, period, arrivals)[i]).root
                == entries[i].root && run(entries, period, arrivals)[i].handler
                == entries[i].handler,
    decreases arrivals.len(),
{
    if arrivals.len() > 0 {
        lemma_run_keeps_roots(entries, period, arrivals.drop_last());
    }
}

/// Debounce isolation: an event changes nothing at a root that does not
/// hold its path. Whatever debounce that root has pending stays pending,
/// with the same path and the same start.
pub proof fn lemma_event_leaves_other_roots<H>(
    entries: Seq<Registration<H>>,
    kind: EventKind,
    path: Seq<char>,
    now: u64,
    other: int,
)
    requires
        0 <= other < entries.len(),
        !path_within(path, entries[other].root),
    ensures
        after_event(entries, kind, path, now).len() == entries.len(),
        after_event(entries, kind, path, now)[other] == entries[other],
{
}

/// Nested roots: an event resets the debounce of every root that holds its
/// path, not only of the innermost.
pub proof fn lemma_event_resets_every_match<H>(
    entries: Seq<Registration<H>>,
    kind: EventKind,
    path: Seq<char>,
    now: u64,
)
    requires
        is_change(kind),
    ensures
        forall|i: int|
            0 <= i < entries.len() && path_within(path, (#[trigger] entries[i]).root)
                ==> after_event(entries, kind, path, now)[i].pending == Some(
                PendingDebounce { path, since: now },
            ),
{
}

/// A root that is registered has one position: the position at which it is
/// found.
pub proof fn lemma_position_of<H>(entries: Seq<Registration<H>>, root: Seq<char>, at: int)
    requires
        distinct_roots(entries),
        0 <= at < entries.len(),
        entries[at].root == root,
    ensures
        position_of(entries, root) == Some(at),
{
}

/// Whether `root` is registered.
pub open spec fn is_registered<H>(entries: Seq<Registration<H>>, root: Seq<char>) -> bool {
    exists|i: int| 0 <= i < entries.len() && (#[trigger] entries[i]).root == root
}

/// Registering a root keeps the registry free of duplicates and adds that
/// root to the registered ones, and no other.
pub proof fn lemma_after_watch<H>(entries: Seq<Registration<H>>, root: Seq<char>, handler: H)
    requires
        distinct_roots(entries),
    ensures
        distinct_roots(after_watch(entries, root, handler)),
        is_registered(after_watch(entries, root, handler), root),
        forall|other: Seq<char>|
            other != root ==> (#[trigger] is_registered(
                after_watch(entries, root, handler),
                other,
            ) <==> is_registered(entries, other)),
{
    let after = after_watch(entries, root, handler);
    match position_of(entries, root) {
        Some(at) => {
            assert(after.len() == entries.len());
            assert(forall|i: int| 0 <= i < after.len() ==> after[i].root == entries[i].root);
            assert(after[at].root == root);
            assert forall|other: Seq<char>| other != root implies (#[trigger] is_registered(
                after,
                other,
            ) <==> is_registered(entries, other)) by {
                if is_registered(after, other) {
                    let i = choose|i: int| 0 <= i < after.len() && (#[trigger] after[i]).root == other;
                    assert(entries[i].root == other);
                }
                if is_registered(entries, other) {
                    let i = choose|i: int|
                        0 <= i < entries.len() && (#[trigger] entries[i]).root == other;
                    assert(after[i].root == other);
                }
            }
        },
        None => {
            assert(forall|i: int| 0 <= i < entries.len() ==> after[i] == entries[i]);
            assert(after[entries.len() as int].root == root);
            assert(forall|i: int| 0 <= i < entries.len() ==> entries[i].root != root);
            assert forall|other: Seq<char>| other != root implies (#[trigger] is_registered(
                after,
                other,
            ) <==> is_registered(entries, other)) by {
                if is_registered(after, other) {
                    let i = choose|i: int| 0 <= i < after.len() && (#[trigger] after[i]).root == other;
                    assert(entries[i].root == other);
                }
                if is_registered(entries, other) {
                    let i = choose|i: int|
                        0 <= i < entries.len() && (#[trigger] entries[i]).root == other;
                    assert(after[i].root == other);
                }
            }
        },
    }
}

/// A root that was taken out of the registry is registered no longer.
pub proof fn lemma_after_unwatch<H>(entries: Seq<Registration<H>>, root: Seq<char>)
    requires
        distinct_roots(entries),
    ensures
        distinct_roots(after_unwatch(entries, root)),
        !is_registered(after_unwatch(entries, root), root),
        forall|other: Seq<char>|
            other != root ==> (#[trigger] is_registered(after_unwatch(entries, root), other)
                <==> is_registered(entries, other)),
{
    let after = after_unwatch(entries, root);
    match position_of(entries, root) {
        Some(at) => {
            assert forall|i: int| 0 <= i < after.len() implies (#[trigger] after[i]).root
                != root by {
                if i < at {
                    assert(after[i] == entries[i]);
                } else {
                    assert(after[i] == entries[i + 1]);
                }
            }
            assert forall|i: int, j: int|
                0 <= i < after.len() && 0 <= j < after.len() && after[i].root
                    == after[j].root implies i == j by {
                let a = if i < at { i } else { i + 1 };
                let b = if j < at { j } else { j + 1 };
                assert(after[i] == entries[a]);
                assert(after[j] == entries[b]);
            }
            assert forall|other: Seq<char>| other != root implies (#[trigger] is_registered(
                after,
                other,
            ) <==> is_registered(entries, other)) by {
                if is_registered(after, other) {
                    let i = choose|i: int| 0 <= i < after.len() && (#[trigger] after[i]).root == other;
                    let a = if i < at { i } else { i + 1 };
                    assert(after[i] == entries[a]);
                }
                if is_registered(entries, other) {
                    let i = choose|i: int|
                        0 <= i < entries.len() && (#[trigger] entries[i]).root == other;
                    let a = if i < at { i } else { i - 1 };
                    assert(after[a] == entries[i]);
                }
            }
        },
        None => {},
    }
}

/// An event on a path that no registered root holds changes nothing.
pub proof fn lemma_event_outside_every_root<H>(
    entries: Seq<Registration<H>>,
    kind: EventKind,
    path: Seq<char>,
    now: u64,
)
    requires
        forall|i: int| 0 <= i < entries.len() ==> !path_within(path, (#[trigger] entries[i]).root),
    ensures
        after_event(entries, kind, path, now) == entries,
{
    assert(after_event(entries, kind, path, now) =~= entries);
}

/// Whether `call` is owed by one of the registrations: by one whose
/// debounce is due, for its root and with the path of its last change.
pub open spec fn is_owed<H>(entries: Seq<Registration<H>>, period: u64, now: u64, call: Call) -> bool {
    exists|i: int|
        0 <= i < entries.len() && has_due(#[trigger] entries[i], period, now) && call == (Call {
            path: entries[i].pending->0.path,
            root: entries[i].root,
        })
}

/// Every call that is due is owed by a registration.
pub proof fn lemma_due_calls_are_owed<H>(entries: Seq<Registration<H>>, period: u64, now: u64)
    ensures
        due_calls(entries, period, now).len() <= entries.len(),
        forall|k: int|
            0 <= k < due_calls(entries, period, now).len() ==> is_owed(
                entries,
                period,
                now,
                #[trigger] due_calls(entries, period, now)[k],
            ),
    decreases entries.len(),
{
    if entries.len() > 0 {
        let front = entries.drop_last();
        let calls = due_calls(entries, period, now);
        let before = due_calls(front, period, now);
        lemma_due_calls_are_owed(front, period, now);
        assert forall|k: int| 0 <= k < calls.len() implies is_owed(
            entries,
            period,
            now,
            #[trigger] calls[k],
        ) by {
            if k < before.len() {
                assert(calls[k] == before[k]);
                assert(is_owed(front, period, now, before[k]));
                let i = choose|i: int|
                    0 <= i < front.len() && has_due(#[trigger] front[i], period, now) && before[k]
                        == (Call { path: front[i].pending->0.path, root: front[i].root });
                assert(entries[i] == front[i]);
            } else {
                assert(has_due(entries[entries.len() - 1], period, now));
            }
        }
    }
}

/// How many of the calls are for `root`.
pub open spec fn calls_for(calls: Seq<Call>, root: Seq<char>) -> nat
    decreases calls.len(),
{
    if calls.len() == 0 {
        0
    } else {
        let last: nat = if calls.last().root == root {
            1
        } else {
            0
        };
        calls_for(calls.drop_last(), root) + last
    }
}

/// No call is due for a root that is not registered.
pub proof fn lemma_no_call_for_stranger<H>(
    entries: Seq<Registration<H>>,
    period: u64,
    now: u64,
    root: Seq<char>,
)
    requires
        forall|i: int| 0 <= i < entries.len() ==> (#[trigger] entries[i]).root != root,
    ensures
        calls_for(due_calls(entries, period, now), root) == 0,
    decreases entries.len(),
{
    if entries.len() > 0 {
        let front = entries.drop_last();
        assert(forall|i: int| 0 <= i < front.len() ==> front[i] == entries[i]);
        lemma_no_call_for_stranger(front, period, now, root);
        let before = due_calls(front, period, now);
        if has_due(entries.last(), period, now) {
            let call = Call { path: entries.last().pending->0.path, root: entries.last().root };
            assert(before.push(call).drop_last() =~= before);
        }
    }
}

/// Exactly one call is due for a root whose debounce is due, and none for
/// any other registered root.
pub proof fn lemma_one_call_per_due_root<H>(
    entries: Seq<Registration<H>>,
    period: u64,
    now: u64,
    at: int,
)
    requires
        distinct_roots(entries),
        0 <= at < entries.len(),
    ensures
        calls_for(due_calls(entries, period, now), entries[at].root) == (if has_due(
            entries[at],
            period,
            now,
        ) {
            1nat
        } else {
            0nat
        }),
    decreases entries.len(),
{
    let front = entries.drop_last();
    let root = entries[at].root;
    let before = due_calls(front, period, now);
    assert(forall|i: int| 0 <= i < front.len() ==> front[i] == entries[i]);
    if has_due(entries.last(), period, now) {
        let call = Call { path: entries.last().pending->0.path, root: entries.last().root };
        assert(before.push(call).drop_last() =~= before);
    }
    if at == entries.len() - 1 {
        assert forall|i: int| 0 <= i < front.len() implies (#[trigger] front[i]).root != root by {
            assert(entries[i].root != entries[at].root);
        }
        lemma_no_call_for_stranger(front, period, now, root);
    } else {
        assert(distinct_roots(front)) by {
            assert forall|i: int, j: int|
                0 <= i < front.len() && 0 <= j < front.len() && front[i].root
                    == front[j].root implies i == j by {
                assert(entries[i].root == entries[j].root);
            }
        }
        lemma_one_call_per_due_root(front, period, now, at);
        assert(entries.last().root != root);
    }
}

/// While a burst lasts, no handler call comes due for its root, and the
/// debounce of the burst's last event is what the root has pending.
pub proof fn lemma_burst_stays_pending<H>(
    entries: Seq<Registration<H>>,
    period: u64,
    arrivals: Seq<Arrival>,
    at: int,
)
    requires
        0 <= at < entries.len(),
        entries[at].pending is None,
        arrivals.len() >= 1,
        all_touch(arrivals, entries[at].root),
        is_burst(arrivals, period),
    ensures
        calls_during(entries, period, arrivals, at) == 0,
        run(entries, period, arrivals)[at].pending == Some(
            PendingDebounce { path: arrivals.last().path, since: arrivals.last().at },
        ),
    decreases arrivals.len(),
{
    let earlier = arrivals.drop_last();
    let event = arrivals.last();
    lemma_run_keeps_roots(entries, period, earlier);
    let before = run(entries, period, earlier);
    assert(arrivals[arrivals.len() - 1] == event);
    if earlier.len() == 0 {
        assert(before[at] == entries[at]);
        assert(calls_during(entries, period, earlier, at) == 0);
    } else {
        let previous = arrivals[arrivals.len() - 2];
        assert(forall|i: int| 0 <= i < earlier.len() ==> earlier[i] == arrivals[i]);
        assert(earlier.last() == previous);
        assert(previous.at <= event.at < previous.at + period);
        assert(all_touch(earlier, entries[at].root));
        assert(is_burst(earlier, period)) by {
            assert forall|i: int, j: int|
                0 <= i && j == i + 1 && j < earlier.len() implies (#[trigger] earlier[i]).at <= (
            #[trigger] earlier[j]).at < earlier[i].at + period by {
                assert(arrivals[i].at <= arrivals[j].at < arrivals[i].at + period);
            }
        }
        lemma_burst_stays_pending(entries, period, earlier, at);
        assert(!has_due(before[at], period, event.at));
    }
    let settled = after_due(before, period, event.at);
    assert(settled[at] == settle(before[at], period, event.at));
    assert(run(entries, period, arrivals)[at] == reset(settled[at], event.path, event.at));
}

/// Debounce correctness, for a burst: events for one root that follow each
/// other by less than the quiet period cause no handler call while they
/// last, and one call once the root has stayed quiet for the period. That
/// call is made with the path of the last event, and it ends the debounce.
pub proof fn lemma_burst_fires_once<H>(
    entries: Seq<Registration<H>>,
    period: u64,
    arrivals: Seq<Arrival>,
    at: int,
    end: u64,
)
    requires
        0 <= at < entries.len(),
        entries[at].pending is None,
        arrivals.len() >= 1,
        all_touch(arrivals, entries[at].root),
        is_burst(arrivals, period),
        arrivals.last().at + period <= end,
    ensures
        calls_until(entries, period, arrivals, at, end) == 1,
        calls_during(entries, period, arrivals, at) == 0,
        run(entries, period, arrivals)[at].pending == Some(
            PendingDebounce { path: arrivals.last().path, since: arrivals.last().at },
        ),
        settle(run(entries, period, arrivals)[at], period, end).pending is None,
{
    lemma_burst_stays_pending(entries, period, arrivals, at);
}

/// Debounce correctness, for events spaced apart: of events for one root
/// that follow each other by a quiet period or more, each causes its own
/// handler call: all but the last are due when the next one arrives, and
/// the last once the root has stayed quiet for the period.
pub proof fn lemma_spaced_events_fire_each<H>(
    entries: Seq<Registration<H>>,
    period: u64,
    arrivals: Seq<Arrival>,
    at: int,
    end: u64,
)
    requires
        0 <= at < entries.len(),
        entries[at].pending is None,
        arrivals.len() >= 1,
        all_touch(arrivals, entries[at].root),
        is_spaced(arrivals, period),
        arrivals.last().at + period <= end,
    ensures
        calls_until(entries, period, arrivals, at, end) == arrivals.len(),
        calls_during(entries, period, arrivals, at) == arrivals.len() - 1,
        run(entries, period, arrivals)[at].pending == Some(
            PendingDebounce { path: arrivals.last().path, since: arrivals.last().at },
        ),
    decreases arrivals.len(),
{
    let earlier = arrivals.drop_last();
    let event = arrivals.last();
    lemma_run_keeps_roots(entries, period, earlier);
    let before = run(entries, period, earlier);
    assert(arrivals[arrivals.len() - 1] == event);
    if earlier.len() == 0 {
        assert(before[at] == entries[at]);
        assert(calls_during(entries, period, earlier, at) == 0);
    } else {
        let previous = arrivals[arrivals.len() - 2];
        assert(forall|i: int| 0 <= i < earlier.len() ==> earlier[i] == arrivals[i]);
        assert(earlier.last() == previous);
        assert(previous.at + period <= event.at);
        assert(all_touch(earlier, entries[at].root));
        assert(is_spaced(earlier, period)) by {
            assert forall|i: int, j: int|
                0 <= i && j == i + 1 && j < earlier.len() implies (#[trigger] earlier[i]).at
                + period <= (#[trigger] earlier[j]).at by {
                assert(arrivals[i].at + period <= arrivals[j].at);
            }
        }
        lemma_spaced_events_fire_each(entries, period, earlier, at, event.at);
        assert(has_due(before[at], period, event.at));
    }
    let settled = after_due(before, period, event.at);
    assert(settled[at] == settle(before[at], period, event.at));
    assert(run(entries, period, arrivals)[at] == reset(settled[at], event.path, event.at));
}

impl<H: Handler> Watcher<H> {
    /// Makes one handler call that is owed: the handler of the call's root
    /// is invoked once, unless the root has left the registry since. Roots
    /// and pending debounces stay as they are.
    pub fn dispatch(&mut self, invocation: Invocation) -> (delivered: bool)
        requires
            old(self).well_formed(),
        ensures
            final(self).well_formed(),
            same_schedule(final(self)@, old(self)@),
            delivered == (position_of(old(self)@, invocation.root@) is Some),
            final(self).period() == old(self).period(),
            final(self).watch_mode() == old(self).watch_mode(),
    {
        let ghost before = self@;
        match self.find(invocation.root.as_str()) {
            Some(at) => {
                let mut handler = self.handlers.remove(at);
                handler.handle(invocation.path, invocation.root);
                self.handlers.insert(at, handler);
                assert(same_schedule(self@, before));
                assert(distinct_roots(self@)) by {
                    assert forall|i: int, j: int|
                        0 <= i < self@.len() && 0 <= j < self@.len() && self@[i].root
                            == self@[j].root implies i == j by {
                        assert(before[i].root == before[j].root);
                    }
                }
                true
            },
            None => false,
        }
    }

    /// Invokes every handler that is due at time `now`, each once, and ends
    /// their debounces. The result is the number of handlers invoked.
    pub fn fire_due(&mut self, now: u64) -> (fired: usize)
        requires
            old(self).well_formed(),
        ensures
            final(self).well_formed(),
            same_schedule(final(self)@, after_due(old(self)@, old(self).period(), now)),
            fired == due_calls(old(self)@, old(self).period(), now).len(),
            final(self).period() == old(self).period(),
            final(self).watch_mode() == old(self).watch_mode(),
    {
        let mut due = self.take_due(now);
        let ghost settled = self@;
        let total = due.len();
        assert(calls_of(due@).len() == due@.len());
        let mut fired: usize = 0;
        while due.len() > 0
            invariant
                self.well_formed(),
                same_schedule(self@, settled),
                fired + due@.len() == total,
                self.period() == old(self).period(),
                self.watch_mode() == old(self).watch_mode(),
            decreases due@.len(),
        {
            let ghost current = self@;
            let invocation = due.remove(0);
            self.dispatch(invocation);
            fired += 1;
            assert(same_schedule(self@, settled)) by {
                assert forall|i: int| 0 <= i < self@.len() implies (#[trigger] self@[i]).root
                    == settled[i].root && self@[i].pending == settled[i].pending by {
                    assert(current[i].root == settled[i].root);
                }
            }
        }
        fired
    }
}

} // verus!
