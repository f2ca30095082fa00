//! The change watcher's decisions: its start/stop state machine, which
//! file-system events matter, the debounce window between triggered passes,
//! and the guard that keeps two passes from running at once.
use vstd::prelude::*;
use crate::media::{is_catalog_file_spec, is_video_related_path};

verus! {

/// The watcher's life cycle.
#[derive(Clone, Copy, Debug, PartialEq, Eq, Structural)]
pub enum WatcherState {
    Stopped,
    Starting,
    Running,
}

/// Why the watcher did not start.
#[derive(Clone, Copy, Debug, PartialEq, Eq, Structural)]
pub enum WatchError {
    /// The watcher is already starting or running.
    AlreadyRunning,
    /// The root at this position of the list does not exist.
    MissingPath(usize),
}

/// What the watcher reports of itself.
#[derive(Clone, Copy, Debug, PartialEq, Eq, Structural)]
pub struct WatcherStatus {
    pub is_watching: bool,
}

/// The position of the first `false` in `s`, if any.
pub open spec fn first_missing(s: Seq<bool>) -> Option<int>
    decreases s.len(),
{
    if s.len() == 0 {
        None
    } else if !s[0] {
        Some(0)
    } else {
        match first_missing(s.subrange(1, s.len() as int)) {
            Some(i) => Some(i + 1),
            None => None,
        }
    }
}

/// The position of the first root that does not exist.
pub fn find_missing(root_exists: &Vec<bool>) -> (r: Option<usize>)
    ensures
        match first_missing(root_exists@) {
            Some(i) => r == Some(i as usize),
            None => r is None,
        },
{
    let mut i: usize = 0;
    assert(root_exists@.subrange(0, root_exists@.len() as int) =~= root_exists@);
    while i < root_exists.len()
        invariant
            i <= root_exists@.len(),
            forall|j: int| 0 <= j < i ==> root_exists@[j],
            first_missing(root_exists@) == match first_missing(root_exists@.subrange(i as int, root_exists@.len() as int)) {
                Some(k) => Some(k + i),
                None => None::<int>,
            },
        decreases root_exists@.len() - i,
    {
        let ghost rest = root_exists@.subrange(i as int, root_exists@.len() as int);
        assert(rest.subrange(1, rest.len() as int) =~= root_exists@.subrange(i + 1, root_exists@.len() as int));
        if !root_exists[i] {
            return Some(i);
        }
        i = i + 1;
    }
    assert(root_exists@.subrange(i as int, root_exists@.len() as int) =~= Seq::<bool>::empty());
    None
}

/// The watcher's state machine.
pub struct FileWatcher {
    pub state: WatcherState,
}

impl FileWatcher {
    /// A stopped watcher.
    pub fn new() -> (r: FileWatcher)
        ensures
            r.state == WatcherState::Stopped,
    {
        FileWatcher { state: WatcherState::Stopped }
    }

    /// Begins a start over roots of which `root_exists` tells which exist.
    /// A watcher that is not stopped refuses; so does any missing root, and
    /// the watcher stays stopped. Otherwise it is starting.
    pub fn start(&mut self, root_exists: &Vec<bool>) -> (r: Result<(), WatchError>)
        ensures
            old(self).state != WatcherState::Stopped ==> r == Err::<(), WatchError>(WatchError::AlreadyRunning)
                && final(self).state == old(self).state,
            old(self).state == WatcherState::Stopped ==> match first_missing(root_exists@) {
                Some(i) => r == Err::<(), WatchError>(WatchError::MissingPath(i as usize))
                    && final(self).state == WatcherState::Stopped,
                None => r is Ok && final(self).state == WatcherState::Starting,
            },
    {
        if self.state != WatcherState::Stopped {
            return Err(WatchError::AlreadyRunning);
        }
        match find_missing(root_exists) {
            Some(i) => return Err(WatchError::MissingPath(i)),
            None => {},
        }
        self.state = WatcherState::Starting;
        Ok(())
    }

    /// The subscriptions are in place: a starting watcher is running.
    pub fn confirm_running(&mut self)
        ensures
            old(self).state == WatcherState::Starting ==> final(self).state == WatcherState::Running,
            old(self).state != WatcherState::Starting ==> final(self).state == old(self).state,
    {
        if self.state == WatcherState::Starting {
            self.state = WatcherState::Running;
        }
    }

    /// Stops the watcher; stopping a stopped watcher is a no-op. Reports
    /// whether it was running or starting.
    pub fn stop(&mut self) -> (r: bool)
        ensures
            final(self).state == WatcherState::Stopped,
            r == (old(self).state != WatcherState::Stopped),
    {
        let was = self.state != WatcherState::Stopped;
        self.state = WatcherState::Stopped;
        was
    }

    /// Whether the watcher is running.
    pub fn is_watching(&self) -> (r: bool)
        ensures
            r == (self.state == WatcherState::Running),
    {
        self.state == WatcherState::Running
    }

    /// The watcher's status.
    pub fn status(&self) -> (r: WatcherStatus)
        ensures
            r.is_watching == (self.state == WatcherState::Running),
    {
        WatcherStatus { is_watching: self.is_watching() }
    }
}

/// The kind of a file-system event.
#[derive(Clone, Copy, Debug, PartialEq, Eq, Structural)]
pub enum ChangeKind {
    Create,
    Modify,
    Remove,
    /// Access and metadata-only events.
    Other,
}

/// One path named by a file-system event.
#[derive(Debug)]
pub struct ChangedPath {
    pub is_dir: bool,
    /// The last component of the path.
    pub name: String,
}

/// Whether an event is a content change worth a new pass: a creation,
/// modification or removal that names a directory or a cataloged kind of
/// file.
pub open spec fn is_content_change_spec(kind: ChangeKind, paths: Seq<ChangedPath>) -> bool {
    kind != ChangeKind::Other && exists|i: int| 0 <= i < paths.len() && path_matters(#[trigger] paths[i])
}

/// Whether a changed path is a directory or a cataloged kind of file.
pub open spec fn path_matters(c: ChangedPath) -> bool {
    c.is_dir || is_catalog_file_spec(c.name@)
}

/// Whether an event is a content change worth a new pass.
pub fn is_content_change(kind: ChangeKind, paths: &Vec<ChangedPath>) -> (r: bool)
    ensures
        r == is_content_change_spec(kind, paths@),
{
    if kind == ChangeKind::Other {
        return false;
    }
    let mut i: usize = 0;
    while i < paths.len()
        invariant
            i <= paths@.len(),
            kind != ChangeKind::Other,
            forall|j: int| 0 <= j < i ==> !path_matters(#[trigger] paths@[j]),
        decreases paths@.len() - i,
    {
        if is_video_related_path(paths[i].is_dir, paths[i].name.as_str()) {
            assert(path_matters(paths@[i as int]));
            return true;
        }
        i = i + 1;
    }
    false
}

/// The default debounce window, in milliseconds.
pub const DEFAULT_DEBOUNCE_MS: u64 = 5000;

/// Coalesces bursts of events into passes: a pass is triggered only once
/// the window has elapsed since the last one (or since the watcher
/// started); an event inside the window is held and triggers a pass at the
/// first tick after the window.
pub struct Debouncer {
    window_ms: u64,
    last_trigger: u64,
    held: bool,
    /// When counting started.
    started: Ghost<u64>,
    /// The times of the passes triggered so far.
    triggers: Ghost<Seq<u64>>,
}

impl Debouncer {
    pub closed spec fn window(&self) -> u64 { self.window_ms }
    pub closed spec fn last(&self) -> u64 { self.last_trigger }
    /// Whether an event is waiting for the window to elapse.
    pub closed spec fn is_held(&self) -> bool { self.held }
    /// The times of the passes triggered so far, in order.
    pub closed spec fn history(&self) -> Seq<u64> { self.triggers@ }
    /// When counting started.
    pub closed spec fn start(&self) -> u64 { self.started@ }

    /// The debouncer's invariant: consecutive triggers, and the first one
    /// and the start, are at least a window apart.
    pub closed spec fn wf(&self) -> bool {
        &&& forall|i: int| 0 <= i < self.triggers@.len() - 1
            ==> self.triggers@[i] + self.window_ms <= #[trigger] self.triggers@[i + 1]
        &&& self.triggers@.len() > 0 ==> self.triggers@.last() == self.last_trigger
        &&& self.triggers@.len() > 0 ==> self.started@ + self.window_ms <= self.triggers@[0]
        &&& self.triggers@.len() == 0 ==> self.last_trigger == self.started@
    }

    /// A debouncer with the given window, counting from `started_at`.
    pub fn new(window_ms: u64, started_at: u64) -> (r: Debouncer)
        ensures
            r.wf(),
            r.window() == window_ms,
            r.last() == started_at,
            r.start() == started_at,
            !r.is_held(),
            r.history().len() == 0,
    {
        Debouncer {
            window_ms,
            last_trigger: started_at,
            held: false,
            started: Ghost(started_at),
            triggers: Ghost(Seq::empty()),
        }
    }

    /// Whether the window has elapsed at `now`.
    pub open spec fn ready(&self, now: u64) -> bool {
        now >= self.last() && now - self.last() >= self.window()
    }

    fn fire(&mut self, now: u64)
        requires
            old(self).wf(),
            old(self).ready(now),
        ensures
            final(self).wf(),
            final(self).window() == old(self).window(),
            final(self).last() == now,
            !final(self).is_held(),
            final(self).history() == old(self).history().push(now),
            final(self).start() == old(self).start(),
    {
        self.last_trigger = now;
        self.held = false;
        self.triggers = Ghost(self.triggers@.push(now));
        assert(self.triggers@[0] == if old(self).triggers@.len() == 0 { now } else { old(self).triggers@[0] });
    }

    /// Records an event at `now`; returns whether a pass is triggered now.
    /// An event inside the window is held instead.
    pub fn on_event(&mut self, now: u64) -> (r: bool)
        requires
            old(self).wf(),
        ensures
            final(self).wf(),
            final(self).window() == old(self).window(),
            final(self).start() == old(self).start(),
            r == old(self).ready(now),
            r ==> final(self).history() == old(self).history().push(now) && final(self).last() == now
                && !final(self).is_held(),
            !r ==> final(self).history() == old(self).history() && final(self).last() == old(self).last()
                && final(self).is_held(),
    {
        if now >= self.last_trigger && now - self.last_trigger >= self.window_ms {
            self.fire(now);
            true
        } else {
            self.held = true;
            false
        }
    }

    /// A clock tick at `now`: a held event triggers a pass once the window
    /// has elapsed.
    pub fn on_tick(&mut self, now: u64) -> (r: bool)
        requires
            old(self).wf(),
        ensures
            final(self).wf(),
            final(self).window() == old(self).window(),
            final(self).start() == old(self).start(),
            r == (old(self).is_held() && old(self).ready(now)),
            r ==> final(self).history() == old(self).history().push(now) && final(self).last() == now
                && !final(self).is_held(),
            !r ==> final(self).history() == old(self).history() && final(self).last() == old(self).last()
                && final(self).is_held() == old(self).is_held(),
    {
        if self.held && now >= self.last_trigger && now - self.last_trigger >= self.window_ms {
            self.fire(now);
            true
        } else {
            false
        }
    }

    /// Any two triggered passes are at least a window apart, and the first
    /// comes at least a window after the start.
    pub proof fn lemma_spaced(&self)
        requires
            self.wf(),
        ensures
            self.history().len() > 0 ==> self.start() + self.window() <= self.history()[0],
            forall|i: int, j: int| 0 <= i < j < self.history().len()
                ==> #[trigger] self.history()[i] + self.window() <= #[trigger] self.history()[j],
    {
        let h = self.triggers@;
        assert forall|i: int, j: int| 0 <= i < j < h.len() implies #[trigger] h[i] + self.window_ms <= #[trigger] h[j] by {
            self.lemma_spaced_from(i, j);
        }
    }

    /// A stretch of time shorter than the window, starting at `t0`, holds
    /// at most one triggered pass, however many events arrived in it.
    pub proof fn lemma_one_per_window(&self, t0: int)
        requires
            self.wf(),
        ensures
            forall|i: int, j: int|
                0 <= i < self.history().len() && 0 <= j < self.history().len()
                && t0 <= #[trigger] self.history()[i] < t0 + self.window()
                && t0 <= #[trigger] self.history()[j] < t0 + self.window()
                ==> i == j,
    {
        self.lemma_spaced();
    }

    proof fn lemma_spaced_from(&self, i: int, j: int)
        requires
            self.wf(),
            0 <= i < j < self.triggers@.len(),
        ensures
            self.triggers@[i] + self.window_ms <= self.triggers@[j],
        decreases j - i,
    {
        let h = self.triggers@;
        assert(h[j - 1] + self.window_ms <= h[(j - 1) + 1]);
        if i < j - 1 {
            self.lemma_spaced_from(i, j - 1);
        }
    }
}

/// Keeps a second reconciliation pass from starting while one runs.
pub struct SyncGuard {
    pub in_progress: bool,
}

impl SyncGuard {
    pub fn new() -> (r: SyncGuard)
        ensures
            !r.in_progress,
    {
        SyncGuard { in_progress: false }
    }

    /// Claims the right to run a pass; refused while one is in progress.
    pub fn try_begin(&mut self) -> (r: bool)
        ensures
            r == !old(self).in_progress,
            final(self).in_progress,
    {
        if self.in_progress {
            false
        } else {
            self.in_progress = true;
            true
        }
    }

    /// Releases the guard at the end of a pass.
    pub fn finish(&mut self)
        ensures
            !final(self).in_progress,
    {
        self.in_progress = false;
    }
}

} // verus!
