use vstd::prelude::*;

use crate::text::{chars_of, push_str};

verus! {

/// Why the controller refused a request.
#[derive(Clone, Copy, Debug, PartialEq, Eq, Structural)]
pub enum ConfigError {
    /// The project root is empty, or, as the caller that starts the file
    /// watcher finds, not a directory.
    InvalidRoot,
    /// The command holds nothing but whitespace.
    EmptyCommand,
    /// `start` while a session is running.
    AlreadyWatching,
    /// `try_stop` while no session is running.
    NotWatching,
    /// Every session number has been used.
    SessionsExhausted,
}

/// What the worker does on a trigger (the initial run, or a batch of file changes).
#[derive(Clone, Copy, Debug, PartialEq, Eq, Structural)]
pub enum TriggerAction {
    /// Run the command now, then call `finish_run`.
    Run,
    /// A run is still in progress: ask again once it has completed. Within
    /// one session runs are sequential, so this comes only when a new session
    /// starts while the last run of a stopped session is still going; the new
    /// session's trigger (its initial run, say) is then deferred, not lost.
    Busy,
    /// The worker's session has been stopped: leave the watch loop.
    Exit,
}

/// The controller's state: the settings, whether a session is active, the
/// number of the latest session, and whether a run is in progress.
pub struct WatcherView {
    pub root: Seq<char>,
    pub command: Seq<char>,
    pub watching: bool,
    pub session: u64,
    pub running: bool,
}

/// Controls watch sessions. A session is started, then stopped; the worker
/// of a session asks on each trigger whether to run. Stopping is cooperative:
/// it is seen at the next trigger, and a run already in progress completes.
pub struct Watcher {
    project_root: String,
    command: String,
    watching: bool,
    session: u64,
    running: bool,
}

impl View for Watcher {
    type V = WatcherView;

    closed spec fn view(&self) -> WatcherView {
        WatcherView {
            root: self.project_root@,
            command: self.command@,
            watching: self.watching,
            session: self.session,
            running: self.running,
        }
    }
}

pub open spec fn is_blank(c: char) -> bool {
    c == ' ' || c == '\t' || c == '\n' || c == '\r'
}

/// A command holds something besides whitespace.
pub open spec fn command_ok(c: Seq<char>) -> bool {
    exists|i: int| 0 <= i < c.len() && !is_blank(#[trigger] c[i])
}

/// The controller after `start`, and what `start` returns.
pub open spec fn start_next(v: WatcherView) -> (WatcherView, Result<u64, ConfigError>) {
    if v.watching {
        (v, Err(ConfigError::AlreadyWatching))
    } else if v.session == u64::MAX {
        (v, Err(ConfigError::SessionsExhausted))
    } else {
        let s = (v.session + 1) as u64;
        (WatcherView { watching: true, session: s, ..v }, Ok(s))
    }
}

/// The controller after `try_stop`, and what `try_stop` returns.
pub open spec fn stop_next(v: WatcherView) -> (WatcherView, Result<(), ConfigError>) {
    if v.watching {
        (WatcherView { watching: false, ..v }, Ok(()))
    } else {
        (v, Err(ConfigError::NotWatching))
    }
}

/// The controller after a trigger of the worker of session `s`, and the action.
pub open spec fn trigger_next(v: WatcherView, s: u64) -> (WatcherView, TriggerAction) {
    if !v.watching || s != v.session {
        (v, TriggerAction::Exit)
    } else if v.running {
        (v, TriggerAction::Busy)
    } else {
        (WatcherView { running: true, ..v }, TriggerAction::Run)
    }
}

/// The controller after a run has completed.
pub open spec fn finish_next(v: WatcherView) -> WatcherView {
    WatcherView { running: false, ..v }
}

/// A request to the controller.
pub enum ControlEvent {
    Start,
    Stop,
    Trigger(u64),
    Finish,
}

pub open spec fn event_next(v: WatcherView, e: ControlEvent) -> WatcherView {
    match e {
        ControlEvent::Start => start_next(v).0,
        ControlEvent::Stop => stop_next(v).0,
        ControlEvent::Trigger(s) => trigger_next(v, s).0,
        ControlEvent::Finish => finish_next(v),
    }
}

/// The controller after a sequence of requests.
pub open spec fn apply(v: WatcherView, es: Seq<ControlEvent>) -> WatcherView
    decreases es.len(),
{
    if es.len() == 0 {
        v
    } else {
        event_next(apply(v, es.drop_last()), es.last())
    }
}

fn command_has_text(c: &str) -> (r: bool)
    ensures
        r == command_ok(c@),
{
    let cs = chars_of(c);
    for i in 0..cs.len()
        invariant
            cs@ == c@,
            forall|j: int| 0 <= j < i ==> is_blank(#[trigger] cs@[j]),
    {
        let ch = cs[i];
        if !(ch == ' ' || ch == '\t' || ch == '\n' || ch == '\r') {
            assert(!is_blank(cs@[i as int]));
            return true;
        }
    }
    false
}

/// The settings of the file watcher for a session.
pub struct WatchSettings {
    /// The directories to watch.
    pub paths: Vec<String>,
    /// The command to run.
    pub command: String,
    /// Glob patterns of the files whose changes trigger a run.
    pub filters: Vec<String>,
    /// The quiet period, in milliseconds, after which a burst of changes triggers one run.
    pub debounce_ms: u64,
    /// Whether to run once when the session starts.
    pub run_initially: bool,
}

/// The quiet period after a change before a run starts.
pub const DEBOUNCE_MS: u64 = 500;

impl Watcher {
    /// A controller for `project_root` and `command`, with no session started.
    pub fn new(project_root: &str, command: &str) -> (r: Result<Watcher, ConfigError>)
        ensures
            project_root@.len() == 0 ==> r == Err::<Watcher, ConfigError>(ConfigError::InvalidRoot),
            project_root@.len() > 0 && !command_ok(command@) ==> r == Err::<Watcher, ConfigError>(
                ConfigError::EmptyCommand,
            ),
            project_root@.len() > 0 && command_ok(command@) ==> (r matches Ok(w) && w@ == (
            WatcherView {
                root: project_root@,
                command: command@,
                watching: false,
                session: 0,
                running: false,
            })),
    {
        if project_root.unicode_len() == 0 {
            return Err(ConfigError::InvalidRoot);
        }
        if !command_has_text(command) {
            return Err(ConfigError::EmptyCommand);
        }
        Ok(
            Watcher {
                project_root: String::from_str(project_root),
                command: String::from_str(command),
                watching: false,
                session: 0,
                running: false,
            },
        )
    }

    /// Starts a new session and returns its number, which the session's worker
    /// hands to `on_trigger`. Where a run of the stopped session is still in
    /// progress, the new session's triggers get `Busy` until `finish_run`.
    pub fn start(&mut self) -> (r: Result<u64, ConfigError>)
        ensures
            (final(self)@, r) == start_next(old(self)@),
    {
        if self.watching {
            return Err(ConfigError::AlreadyWatching);
        }
        if self.session == u64::MAX {
            return Err(ConfigError::SessionsExhausted);
        }
        self.session = self.session + 1;
        self.watching = true;
        Ok(self.session)
    }

    /// Asks the current session to stop. A run in progress is not interrupted.
    pub fn try_stop(&mut self) -> (r: Result<(), ConfigError>)
        ensures
            (final(self)@, r) == stop_next(old(self)@),
    {
        if !self.watching {
            return Err(ConfigError::NotWatching);
        }
        self.watching = false;
        Ok(())
    }

    /// Decides what the worker of session `session` does on a trigger.
    pub fn on_trigger(&mut self, session: u64) -> (r: TriggerAction)
        ensures
            (final(self)@, r) == trigger_next(old(self)@, session),
    {
        if !self.watching || session != self.session {
            TriggerAction::Exit
        } else if self.running {
            TriggerAction::Busy
        } else {
            self.running = true;
            TriggerAction::Run
        }
    }

    /// Records that the run in progress has completed. Its result is delivered
    /// even where the session was stopped meanwhile.
    pub fn finish_run(&mut self)
        ensures
            final(self)@ == finish_next(old(self)@),
    {
        self.running = false;
    }

    pub fn is_watching(&self) -> (r: bool)
        ensures
            r == self@.watching,
    {
        self.watching
    }

    pub fn is_running(&self) -> (r: bool)
        ensures
            r == self@.running,
    {
        self.running
    }

    /// The settings of the file watcher: the project root, the command, Rust
    /// sources and Cargo manifests as triggers, the debounce period, and an
    /// initial run.
    pub fn settings(&self) -> (r: WatchSettings)
        ensures
            r.paths@.len() == 1,
            r.paths@[0]@ == self@.root,
            r.command@ == self@.command,
            r.filters@.len() == 2,
            r.filters@[0]@ == seq!['*', '*', '/', '*', '.', 't', 'o', 'm', 'l'],
            r.filters@[1]@ == seq!['*', '*', '/', '*', '.', 'r', 's'],
            r.debounce_ms == DEBOUNCE_MS,
            r.run_initially,
    {
        let mut toml = String::new();
        push_str(&mut toml, "**/*.toml");
        let mut rs = String::new();
        push_str(&mut rs, "**/*.rs");
        proof {
            reveal_strlit("**/*.toml");
            reveal_strlit("**/*.rs");
        }
        let mut paths: Vec<String> = Vec::new();
        paths.push(self.project_root.clone());
        let mut filters: Vec<String> = Vec::new();
        filters.push(toml);
        filters.push(rs);
        WatchSettings {
            paths,
            command: self.command.clone(),
            filters,
            debounce_ms: DEBOUNCE_MS,
            run_initially: true,
        }
    }
}

/// Starting twice without a stop in between fails, and leaves the controller
/// as it was; stopping a controller with no session fails, and changes nothing.
pub proof fn law_start_stop_errors(v: WatcherView)
    ensures
        start_next(v).1 is Ok ==> start_next(start_next(v).0).1 == Err::<u64, ConfigError>(
            ConfigError::AlreadyWatching,
        ) && start_next(start_next(v).0).0 == start_next(v).0,
        !v.watching ==> stop_next(v) == (v, Err::<(), ConfigError>(ConfigError::NotWatching)),
{
}

/// After a session is stopped, its worker is never told to run again,
/// whatever requests follow: later sessions get new numbers.
pub proof fn law_no_run_after_stop(v: WatcherView, es: Seq<ControlEvent>, s: u64)
    requires
        v.watching,
        s <= v.session,
    ensures
        trigger_next(apply(stop_next(v).0, es), s).1 != TriggerAction::Run,
{
    lemma_stopped_session_stays_off(stop_next(v).0, es, v.session);
}

proof fn lemma_stopped_session_stays_off(v: WatcherView, es: Seq<ControlEvent>, stopped: u64)
    requires
        v.session > stopped || (!v.watching && v.session == stopped),
    ensures
        apply(v, es).session > stopped || (!apply(v, es).watching && apply(v, es).session
            == stopped),
    decreases es.len(),
{
    if es.len() > 0 {
        lemma_stopped_session_stays_off(v, es.drop_last(), stopped);
    }
}

/// A run in progress when its session is stopped still completes: stopping
/// leaves it running, and finishing it ends it.
pub proof fn law_run_in_progress_completes(v: WatcherView)
    requires
        v.watching,
        v.running,
    ensures
        stop_next(v).0.running,
        !finish_next(stop_next(v).0).running,
        !finish_next(stop_next(v).0).watching,
{
}

} // verus!
