//! The daemon's life: one instance per state directory, storage, serving and
//! cleanup.
//!
//! A lock file with the owner's pid guards a state directory. A second start
//! against a live daemon is a quiet no-op; a lock left behind by a dead process
//! is reclaimed. However a daemon ends, the stop is recorded and its socket and
//! lock are removed.

use crate::ipc;
use crate::ipc::{DaemonInfo, Method, StatusReport, WorkItemStatus};
use crate::json::{Fields, Json, JsonView};
use crate::storage;
use crate::storage::{Storage, StorageError, StorageErrorView, TablesView, WorkItemView};
use crate::text;
use crate::text::{parse_u32, trim};
use vstd::prelude::*;
use vstd::string::*;

verus! {

// ---------------------------------------------------------------------------
// The lock

/// How often taking the lock is tried.
pub const LOCK_ATTEMPTS: u32 = 5;

/// Outcome of taking the lock.
#[derive(Debug, Clone, Copy, PartialEq, Eq, Structural)]
pub enum LockState {
    Acquired,
    AlreadyRunning(u32),
}

/// The pid that a lock file names, when it names one.
pub open spec fn owner(content: Option<Seq<char>>) -> Option<int> {
    match content {
        None => None,
        Some(s) => match text::parsed_in(text::trimmed(s), false, 0, u32::MAX as int) {
            Some(pid) => if pid > 0 {
                Some(pid)
            } else {
                None
            },
            None => None,
        },
    }
}

/// The pid that a lock file names; `None` where the file cannot be read or
/// holds no pid.
pub fn lock_owner(content: &Option<String>) -> (r: Option<u32>)
    ensures
        match (r, owner(text::opt_text(*content))) {
            (Some(a), Some(b)) => a == b,
            (None, None) => true,
            _ => false,
        },
{
    match content {
        None => None,
        Some(s) => match parse_u32(trim(s.as_str()).as_str()) {
            Some(pid) => if pid > 0 {
                Some(pid)
            } else {
                None
            },
            None => None,
        },
    }
}

/// A pid as a signal takes it. One that does not fit is garbage: cast, it could
/// come to mean every process there is.
pub fn signal_target(pid: u32) -> (r: Option<i32>)
    ensures
        match r {
            Some(p) => p == pid,
            None => pid > i32::MAX,
        },
{
    if pid <= 0x7fff_ffff {
        Some(pid as i32)
    } else {
        None
    }
}

/// What became of a try to create the lock file.
pub enum LockEvent {
    /// Created, and the own pid written into it.
    Created,
    /// Created, but the pid could not be written.
    NotWritten(String),
    /// There is one already: what is in it, where it can be read.
    Exists(Option<String>),
    /// Not created, for another reason.
    NotCreated(String),
    /// Whether the signal check reached the owner, or was denied.
    Checked { delivered: bool, denied: bool },
    /// The stale file is gone.
    Removed,
    /// The stale file could not be removed.
    NotRemoved(String),
}

/// What to do next about the lock.
#[derive(Debug, PartialEq, Eq)]
pub enum LockAction {
    /// Create the file, failing where there is one.
    Create,
    /// Check whether a signal would reach this process.
    Check(i32),
    /// Remove the file.
    Remove,
    Done(LockState),
    Fail(String),
}

#[verifier::ext_equal]
pub enum LockActionView {
    Create,
    Check(int),
    Remove,
    Done(LockState),
    Fail(Seq<char>),
}

impl View for LockAction {
    type V = LockActionView;

    open spec fn view(&self) -> LockActionView {
        match *self {
            LockAction::Create => LockActionView::Create,
            LockAction::Check(pid) => LockActionView::Check(pid as int),
            LockAction::Remove => LockActionView::Remove,
            LockAction::Done(s) => LockActionView::Done(s),
            LockAction::Fail(m) => LockActionView::Fail(m@),
        }
    }
}

/// Taking a lock: how many tries are left, and whose pid is being checked.
pub struct LockTry {
    pub left: u32,
    pub checking: u32,
}

/// What follows when the file is stale and `left` tries remain.
pub open spec fn retried(path: Seq<char>, left: u32) -> LockActionView {
    if left > 0 {
        LockActionView::Create
    } else {
        LockActionView::Fail(
            "could not acquire "@ + path + " after repeated attempts (lock churn?)"@,
        )
    }
}

/// What an event leads to: tries left, the pid being checked, and the action.
pub open spec fn lock_outcome(path: Seq<char>, t: LockTry, event: LockEvent) -> (
    LockTry,
    LockActionView,
) {
    match event {
        LockEvent::Created => (t, LockActionView::Done(LockState::Acquired)),
        LockEvent::NotWritten(e) => (
            t,
            LockActionView::Fail("writing pid to "@ + path + ": "@ + e@),
        ),
        LockEvent::NotCreated(e) => (
            t,
            LockActionView::Fail("creating lock file "@ + path + ": "@ + e@),
        ),
        LockEvent::Exists(content) => match owner(text::opt_text(content)) {
            Some(pid) => if pid <= i32::MAX {
                (LockTry { checking: pid as u32, ..t }, LockActionView::Check(pid))
            } else {
                (t, LockActionView::Remove)
            },
            None => (t, LockActionView::Remove),
        },
        LockEvent::Checked { delivered, denied } => if delivered || denied {
            (t, LockActionView::Done(LockState::AlreadyRunning(t.checking)))
        } else {
            (t, LockActionView::Remove)
        },
        LockEvent::Removed => if t.left > 0 {
            (LockTry { left: (t.left - 1) as u32, ..t }, retried(path, (t.left - 1) as u32))
        } else {
            (t, retried(path, 0))
        },
        LockEvent::NotRemoved(e) => (
            t,
            LockActionView::Fail("removing "@ + path + ": "@ + e@),
        ),
    }
}

/// First step of taking a lock.
pub fn acquire_lock() -> (r: (LockTry, LockAction))
    ensures
        r.0.left == LOCK_ATTEMPTS,
        r.1 is Create,
{
    (LockTry { left: LOCK_ATTEMPTS, checking: 0 }, LockAction::Create)
}

/// A step of taking a lock.
pub fn lock_step(path: &str, t: LockTry, event: LockEvent) -> (r: (LockTry, LockAction))
    ensures
        (r.0, r.1@) == lock_outcome(path@, t, event),
{
    match event {
        LockEvent::Created => (t, LockAction::Done(LockState::Acquired)),
        LockEvent::NotWritten(e) => (
            t,
            LockAction::Fail(
                "writing pid to ".to_owned().concat(path).concat(": ").concat(e.as_str()),
            ),
        ),
        LockEvent::NotCreated(e) => (
            t,
            LockAction::Fail(
                "creating lock file ".to_owned().concat(path).concat(": ").concat(e.as_str()),
            ),
        ),
        LockEvent::Exists(content) => match lock_owner(&content) {
            Some(pid) => match signal_target(pid) {
                Some(target) => (
                    LockTry { left: t.left, checking: pid },
                    LockAction::Check(target),
                ),
                None => (t, LockAction::Remove),
            },
            None => (t, LockAction::Remove),
        },
        LockEvent::Checked { delivered, denied } => if delivered || denied {
            let pid: u32 = t.checking;
            (t, LockAction::Done(LockState::AlreadyRunning(pid)))
        } else {
            (t, LockAction::Remove)
        },
        LockEvent::Removed => {
            let left: u32 = if t.left > 0 {
                t.left - 1
            } else {
                0
            };
            let action = if left > 0 {
                LockAction::Create
            } else {
                LockAction::Fail(
                    "could not acquire ".to_owned().concat(path).concat(
                        " after repeated attempts (lock churn?)",
                    ),
                )
            };
            (LockTry { left, checking: t.checking }, action)
        },
        LockEvent::NotRemoved(e) => (
            t,
            LockAction::Fail("removing ".to_owned().concat(path).concat(": ").concat(e.as_str())),
        ),
    }
}

/// A lock is never taken from a live owner: where the file names a pid that a
/// signal would reach, or is denied to reach, the outcome is that this pid is
/// already running.
pub proof fn lemma_live_lock_is_respected(
    path: Seq<char>,
    t: LockTry,
    content: Option<String>,
    delivered: bool,
    denied: bool,
)
    requires
        owner(text::opt_text(content)) matches Some(pid) && pid <= i32::MAX,
        delivered || denied,
    ensures
        ({
            let pid = owner(text::opt_text(content))->0;
            let (t1, a1) = lock_outcome(path, t, LockEvent::Exists(content));
            let (t2, a2) = lock_outcome(path, t1, LockEvent::Checked { delivered, denied });
            &&& a1 == LockActionView::Check(pid)
            &&& a2 == LockActionView::Done(LockState::AlreadyRunning(pid as u32))
        }),
{
}

/// A lock is reclaimed where its file names no pid, or a pid that no process
/// can have, or the pid of a process that is gone.
pub proof fn lemma_stale_lock_is_reclaimed(path: Seq<char>, t: LockTry, content: Option<String>)
    ensures
        ({
            let (t1, a1) = lock_outcome(path, t, LockEvent::Exists(content));
            let gone = LockEvent::Checked { delivered: false, denied: false };
            &&& match owner(text::opt_text(content)) {
                Some(pid) => if pid <= i32::MAX {
                    a1 == LockActionView::Check(pid) && lock_outcome(path, t1, gone).1
                        == LockActionView::Remove
                } else {
                    a1 == LockActionView::Remove
                },
                None => a1 == LockActionView::Remove,
            }
        }),
{
}

/// Taking a lock ends: every removal uses up a try, and the last one gives up.
pub proof fn lemma_lock_tries_end(path: Seq<char>, t: LockTry, event: LockEvent)
    ensures
        lock_outcome(path, t, event).1 is Create ==> lock_outcome(path, t, event).0.left < t.left,
        event is Removed && t.left <= 1 ==> lock_outcome(path, t, event).1 is Fail,
{
}

// ---------------------------------------------------------------------------
// The stages of a run

#[derive(Debug, Clone, Copy, PartialEq, Eq, Structural)]
pub enum Stage {
    /// Load the configuration: a broken one fails here too, not only in the
    /// command that started the daemon.
    Config,
    /// Create the state directory.
    StateDir,
    Lock,
    /// Remove a socket that a dead daemon left behind.
    Socket,
    Storage,
    /// Record the start.
    Started,
    Runtime,
    Serve,
    /// Record the stop.
    Stopped,
    Exit,
}

/// What became of a stage.
pub enum StageEnd {
    Done,
    /// The lock belongs to a live daemon.
    AlreadyRunning,
    Failed(String),
}

/// A run of the daemon. What it owns is removed when it exits.
pub struct Run {
    pub stage: Stage,
    pub owns_lock: bool,
    pub owns_socket: bool,
    pub result: Result<(), String>,
}

#[verifier::ext_equal]
pub struct RunView {
    pub stage: Stage,
    pub owns_lock: bool,
    pub owns_socket: bool,
    pub result: Result<(), Seq<char>>,
}

impl View for Run {
    type V = RunView;

    open spec fn view(&self) -> RunView {
        RunView {
            stage: self.stage,
            owns_lock: self.owns_lock,
            owns_socket: self.owns_socket,
            result: match self.result {
                Ok(_) => Ok(()),
                Err(e) => Err(e@),
            },
        }
    }
}

pub open spec fn stage_number(s: Stage) -> int {
    match s {
        Stage::Config => 0,
        Stage::StateDir => 1,
        Stage::Lock => 2,
        Stage::Socket => 3,
        Stage::Storage => 4,
        Stage::Started => 5,
        Stage::Runtime => 6,
        Stage::Serve => 7,
        Stage::Stopped => 8,
        Stage::Exit => 9,
    }
}

pub open spec fn stage_after(s: Stage) -> Stage {
    match s {
        Stage::Config => Stage::StateDir,
        Stage::StateDir => Stage::Lock,
        Stage::Lock => Stage::Socket,
        Stage::Socket => Stage::Storage,
        Stage::Storage => Stage::Started,
        Stage::Started => Stage::Runtime,
        Stage::Runtime => Stage::Serve,
        Stage::Serve => Stage::Stopped,
        Stage::Stopped => Stage::Exit,
        Stage::Exit => Stage::Exit,
    }
}

/// What an error of a stage is told as.
pub open spec fn stage_error(s: Stage, state_dir: Seq<char>, cause: Seq<char>) -> Seq<char> {
    match s {
        Stage::Config => "loading configuration: "@ + cause,
        Stage::StateDir => "creating state directory "@ + state_dir + ": "@ + cause,
        Stage::Storage => "opening storage: "@ + cause,
        Stage::Started => "recording daemon_started event: "@ + cause,
        Stage::Runtime => "building tokio runtime: "@ + cause,
        _ => cause,
    }
}

/// What follows a stage. The stop is recorded once serving began, whether or
/// not serving failed, and failing to record it masks nothing.
pub open spec fn run_outcome(r: RunView, state_dir: Seq<char>, end: StageEnd) -> RunView {
    let next = stage_after(r.stage);
    match end {
        StageEnd::Done => RunView {
            stage: next,
            owns_lock: r.owns_lock || r.stage == Stage::Lock,
            owns_socket: r.owns_socket || r.stage == Stage::Socket,
            ..r
        },
        StageEnd::AlreadyRunning => RunView { stage: Stage::Exit, ..r },
        StageEnd::Failed(cause) => match r.stage {
            Stage::Stopped | Stage::Exit => RunView { stage: Stage::Exit, ..r },
            Stage::Serve => RunView { stage: Stage::Stopped, result: Err(cause@), ..r },
            _ => RunView {
                stage: Stage::Exit,
                result: Err(stage_error(r.stage, state_dir, cause@)),
                ..r
            },
        },
    }
}

fn next_stage(s: Stage) -> (r: Stage)
    ensures
        r == stage_after(s),
{
    match s {
        Stage::Config => Stage::StateDir,
        Stage::StateDir => Stage::Lock,
        Stage::Lock => Stage::Socket,
        Stage::Socket => Stage::Storage,
        Stage::Storage => Stage::Started,
        Stage::Started => Stage::Runtime,
        Stage::Runtime => Stage::Serve,
        Stage::Serve => Stage::Stopped,
        Stage::Stopped => Stage::Exit,
        Stage::Exit => Stage::Exit,
    }
}

fn explain(s: Stage, state_dir: &str, cause: &str) -> (r: String)
    ensures
        r@ == stage_error(s, state_dir@, cause@),
{
    match s {
        Stage::Config => "loading configuration: ".to_owned().concat(cause),
        Stage::StateDir => "creating state directory ".to_owned().concat(state_dir).concat(
            ": ",
        ).concat(cause),
        Stage::Storage => "opening storage: ".to_owned().concat(cause),
        Stage::Started => "recording daemon_started event: ".to_owned().concat(cause),
        Stage::Runtime => "building tokio runtime: ".to_owned().concat(cause),
        _ => cause.to_owned(),
    }
}

/// First step of a run.
pub fn run() -> (r: Run)
    ensures
        r@ == (RunView {
            stage: Stage::Config,
            owns_lock: false,
            owns_socket: false,
            result: Ok(()),
        }),
{
    Run { stage: Stage::Config, owns_lock: false, owns_socket: false, result: Ok(()) }
}

impl Run {
    /// A step of a run: what became of its stage.
    pub fn step(self, state_dir: &str, end: StageEnd) -> (r: Run)
        ensures
            r@ == run_outcome(self@, state_dir@, end),
    {
        match end {
            StageEnd::Done => Run {
                stage: next_stage(self.stage),
                owns_lock: self.owns_lock || self.stage == Stage::Lock,
                owns_socket: self.owns_socket || self.stage == Stage::Socket,
                result: self.result,
            },
            StageEnd::AlreadyRunning => Run {
                stage: Stage::Exit,
                owns_lock: self.owns_lock,
                owns_socket: self.owns_socket,
                result: self.result,
            },
            StageEnd::Failed(cause) => match self.stage {
                Stage::Stopped | Stage::Exit => Run {
                    stage: Stage::Exit,
                    owns_lock: self.owns_lock,
                    owns_socket: self.owns_socket,
                    result: self.result,
                },
                Stage::Serve => Run {
                    stage: Stage::Stopped,
                    owns_lock: self.owns_lock,
                    owns_socket: self.owns_socket,
                    result: Err(cause),
                },
                stage => Run {
                    stage: Stage::Exit,
                    owns_lock: self.owns_lock,
                    owns_socket: self.owns_socket,
                    result: Err(explain(stage, state_dir, cause.as_str())),
                },
            },
        }
    }
}

/// Whether a run owns what it must own at its stage: the lock from the moment
/// it was taken, the socket from the moment it was cleared.
pub open spec fn run_ok(r: RunView) -> bool {
    &&& r.stage != Stage::Exit ==> (r.owns_lock <==> stage_number(r.stage) > 2)
    &&& r.stage != Stage::Exit ==> (r.owns_socket <==> stage_number(r.stage) > 3)
    &&& r.owns_socket ==> r.owns_lock
    &&& stage_number(r.stage) < 8 ==> r.result is Ok
}

/// Every stage keeps what a run owns, gets it closer to its exit, and lets go
/// of nothing that the exit has to remove.
pub proof fn lemma_run_cleans_up(r: RunView, state_dir: Seq<char>, end: StageEnd)
    requires
        run_ok(r),
        r.stage != Stage::Exit,
    ensures
        run_ok(run_outcome(r, state_dir, end)),
        stage_number(run_outcome(r, state_dir, end).stage) > stage_number(r.stage),
        r.owns_lock ==> run_outcome(r, state_dir, end).owns_lock,
        r.owns_socket ==> run_outcome(r, state_dir, end).owns_socket,
{
}

/// A start against a live daemon does nothing and succeeds.
pub proof fn lemma_second_start_is_a_no_op(r: RunView, state_dir: Seq<char>)
    requires
        run_ok(r),
        r.stage == Stage::Lock,
    ensures
        ({
            let exit = run_outcome(r, state_dir, StageEnd::AlreadyRunning);
            exit.stage == Stage::Exit && !exit.owns_lock && !exit.owns_socket && exit.result is Ok
        }),
{
}

/// Once serving began the stop is recorded, whatever serving came to, and the
/// result of serving is the result of the run.
pub proof fn lemma_stop_is_recorded(
    r: RunView,
    state_dir: Seq<char>,
    served: StageEnd,
    recorded: StageEnd,
)
    requires
        run_ok(r),
        r.stage == Stage::Serve,
        !(served is AlreadyRunning),
    ensures
        ({
            let after = run_outcome(r, state_dir, served);
            let exit = run_outcome(after, state_dir, recorded);
            &&& after.stage == Stage::Stopped
            &&& exit.stage == Stage::Exit
            &&& match served {
                StageEnd::Failed(e) => exit.result == Err::<(), Seq<char>>(e@),
                _ => exit.result is Ok,
            }
        }),
{
}

// ---------------------------------------------------------------------------
// What is recorded

/// Payload of the event that records a start.
pub open spec fn started_json(pid: u32, version: Seq<char>) -> JsonView {
    JsonView::Object(
        seq![("pid"@, JsonView::Int(pid as int)), ("version"@, JsonView::Str(version))],
    )
}

/// Payload of the event that records a stop.
pub open spec fn stopped_json(pid: u32) -> JsonView {
    JsonView::Object(seq![("pid"@, JsonView::Int(pid as int))])
}

/// Records the start of a daemon.
pub fn record_started(storage: &mut Storage, pid: u32, version: &str, now: &str) -> (r: Result<
    i64,
    StorageError,
>)
    requires
        old(storage).wf(),
    ensures
        final(storage).wf(),
        ({
            let v = storage::appended(
                old(storage)@.tables,
                None,
                "daemon"@,
                "daemon_started"@,
                started_json(pid, version@),
                now@,
            );
            storage::id_result(r, v) && storage::settled(
                old(storage)@,
                final(storage)@,
                storage::tables_part(v),
            )
        }),
{
    let fields = Fields::new().with("pid", Json::from_u64(pid as u64)).with(
        "version",
        Json::text(version),
    );
    assert(fields@ == seq![
        ("pid"@, JsonView::Int(pid as int)),
        ("version"@, JsonView::Str(version@)),
    ]);
    storage.append_event_at(None, "daemon", "daemon_started", &fields.done(), now)
}

/// Records the stop of a daemon.
pub fn record_stopped(storage: &mut Storage, pid: u32, now: &str) -> (r: Result<i64, StorageError>)
    requires
        old(storage).wf(),
    ensures
        final(storage).wf(),
        ({
            let v = storage::appended(
                old(storage)@.tables,
                None,
                "daemon"@,
                "daemon_stopped"@,
                stopped_json(pid),
                now@,
            );
            storage::id_result(r, v) && storage::settled(
                old(storage)@,
                final(storage)@,
                storage::tables_part(v),
            )
        }),
{
    let fields = Fields::new().with("pid", Json::from_u64(pid as u64));
    assert(fields@ == seq![("pid"@, JsonView::Int(pid as int))]);
    storage.append_event_at(None, "daemon", "daemon_stopped", &fields.done(), now)
}

// ---------------------------------------------------------------------------
// Requests

/// Answers requests from storage.
pub struct DaemonHandler {
    pub version: String,
    pub pid: u32,
    pub state_dir: String,
    /// RFC3339 UTC, read once at the start.
    pub started_at: String,
}

/// An item as the status reports it: without an agent, and mergeability not
/// evaluated.
pub open spec fn is_item_status(w: WorkItemStatus, row: WorkItemView, gates: nat) -> bool {
    &&& w.id == row.id
    &&& w.ticket@ == row.ticket_key
    &&& w.repo@ == row.repo
    &&& w.state@ == row.state
    &&& w.agent is None
    &&& w.pending_gates == gates
    &&& w.mergeable is None
}

/// The report on tables: every item with the number of its pending gates.
pub open spec fn is_report(h: DaemonHandler, t: TablesView, report: StatusReport) -> bool {
    let rows = storage::listed(t);
    &&& report.daemon.version@ == h.version@
    &&& report.daemon.pid == h.pid
    &&& report.daemon.started_at@ == h.started_at@
    &&& report.daemon.state_dir@ == h.state_dir@
    &&& report.items@.len() == rows.len()
    &&& forall|i: int|
        0 <= i < rows.len() ==> is_item_status(
            #[trigger] report.items@[i],
            rows[i],
            storage::pending_of(t, Some(rows[i].id)).len(),
        )
}

/// What stops a report: the first item whose pending gates are more than a
/// report can tell.
pub open spec fn uncounted(t: TablesView, rows: Seq<WorkItemView>) -> Option<Seq<char>>
    decreases rows.len(),
{
    if rows.len() == 0 {
        None
    } else {
        match uncounted(t, rows.drop_last()) {
            Some(m) => Some(m),
            None => {
                let n = storage::pending_of(t, Some(rows.last().id)).len();
                if n > u32::MAX {
                    Some(
                        "counting pending gates: "@ + storage::storage_message(
                            StorageErrorView::Sqlite(
                                "Integer "@ + text::nat_text(n) + " out of range at index 0"@,
                            ),
                        ),
                    )
                } else {
                    None
                }
            },
        }
    }
}

proof fn lemma_first_uncounted(t: TablesView, rows: Seq<WorkItemView>, n: int)
    requires
        0 <= n <= rows.len(),
        uncounted(t, rows.take(n)) is Some,
    ensures
        uncounted(t, rows) == uncounted(t, rows.take(n)),
    decreases rows.len(),
{
    if n < rows.len() {
        assert(rows.drop_last().take(n) == rows.take(n));
        lemma_first_uncounted(t, rows.drop_last(), n);
    } else {
        assert(rows.take(n) == rows);
    }
}

impl DaemonHandler {
    /// The status of all items, in the order of their ids. More than
    /// `u32::MAX` pending gates of one item cannot be reported.
    pub fn status_report(&self, storage: &Storage) -> (r: Result<StatusReport, String>)
        requires
            storage.wf(),
        ensures
            match (r, uncounted(storage@.tables, storage::listed(storage@.tables))) {
                (Ok(report), None) => is_report(*self, storage@.tables, report),
                (Err(a), Some(b)) => a@ == b,
                _ => false,
            },
    {
        let ghost t = storage@.tables;
        let ghost rows = storage::listed(t);
        let listed = match storage.list_work_items() {
            Ok(listed) => listed,
            Err(e) => return Err(
                "listing work items: ".to_owned().concat(e.message().as_str()),
            ),
        };
        let mut items: Vec<WorkItemStatus> = Vec::new();
        let mut i: usize = 0;
        while i < listed.len()
            invariant
                i <= listed@.len(),
                storage.wf(),
                uncounted(t, rows.take(i as int)) is None,
                t == storage@.tables,
                rows == storage::listed(t),
                rows == storage::work_item_views(listed@),
                items@.len() == i,
                forall|k: int|
                    0 <= k < i ==> is_item_status(
                        #[trigger] items@[k],
                        rows[k],
                        storage::pending_of(t, Some(rows[k].id)).len(),
                    ),
            decreases listed@.len() - i,
        {
            let row = &listed[i];
            assert(rows[i as int] == row@);
            assert(rows.take(i as int + 1).drop_last() == rows.take(i as int));
            assert(rows.take(i as int + 1).last() == row@);
            let pending_gates: u32 = match storage.count_pending_gates(row.id) {
                Ok(n) => n,
                Err(e) => {
                    proof {
                        lemma_first_uncounted(t, rows, i as int + 1);
                    }
                    return Err("counting pending gates: ".to_owned().concat(e.message().as_str()));
                },
            };
            items.push(
                WorkItemStatus {
                    id: row.id,
                    ticket: row.ticket_key.clone(),
                    repo: row.repo.clone(),
                    state: row.state.clone(),
                    agent: None,
                    pending_gates,
                    mergeable: None,
                },
            );
            i = i + 1;
        }
        assert(rows.take(i as int) == rows);
        Ok(
            StatusReport {
                daemon: DaemonInfo {
                    version: self.version.clone(),
                    pid: self.pid,
                    started_at: self.started_at.clone(),
                    state_dir: self.state_dir.clone(),
                },
                items,
            },
        )
    }

    /// Answers one request, and says whether the shutdown flag is to be raised.
    pub fn handle(&self, storage: &Storage, method: Method) -> (r: (Result<Json, String>, bool))
        requires
            storage.wf(),
        ensures
            r.1 <==> method == Method::Shutdown,
            match method {
                Method::Ping | Method::Shutdown => r.0 matches Ok(data) && data@
                    == JsonView::Object(Seq::empty()),
                Method::Subscribe => r.0 matches Err(m) && m@
                    == "subscribe is handled by the server"@,
                Method::Status => match (
                    r.0,
                    uncounted(storage@.tables, storage::listed(storage@.tables)),
                ) {
                    (Ok(data), None) => exists|report: StatusReport| #[trigger]
                        is_report(*self, storage@.tables, report) && data@ == ipc::report_json(
                            report,
                        ),
                    (Err(a), Some(b)) => a@ == b,
                    _ => false,
                },
            },
    {
        match method {
            Method::Ping => (Ok(empty_object()), false),
            Method::Shutdown => (Ok(empty_object()), true),
            Method::Subscribe => (
                Err("subscribe is handled by the server".to_owned()),
                false,
            ),
            Method::Status => match self.status_report(storage) {
                Ok(report) => (Ok(report.to_json()), false),
                Err(e) => (Err(e), false),
            },
        }
    }
}

fn empty_object() -> (r: Json)
    ensures
        r@ == JsonView::Object(Seq::empty()),
{
    let fields = Fields::new();
    assert(fields@ == Seq::<(Seq<char>, JsonView)>::empty());
    fields.done()
}

} // verus!
