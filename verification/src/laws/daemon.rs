//! How a daemon takes hold of its state directory, runs and ends.

use crate::json::JsonView;
use crate::laws::json::{holds, lemma_holds};
use crate::lifecycle;
use crate::lifecycle::{
    DaemonHandler, LockActionView, LockEvent, LockState, LockTry, RunView, Stage, StageEnd,
};
use crate::ipc::StatusReport;
use crate::storage;
use crate::storage::TablesView;
use crate::text;
use vstd::prelude::*;
use vstd::string::*;

verus! {

// ---------------------------------------------------------------------------
// The lock

/// A lock that names a process, with white space around or without, belongs to
/// it; process 0 is nobody's.
pub proof fn lemma_lock_names_its_owner(content: Seq<char>, pid: int)
    requires
        0 < pid <= u32::MAX,
        text::trimmed(content) == text::int_text(pid),
    ensures
        lifecycle::owner(Some(content)) == Some(pid),
        lifecycle::owner(None) is None,
{
    text::lemma_int_text_denotes(pid);
}

/// Whoever a lock belongs to is a process with a positive id.
pub proof fn lemma_owners_are_processes(content: Option<Seq<char>>, pid: int)
    requires
        lifecycle::owner(content) == Some(pid),
    ensures
        0 < pid <= u32::MAX,
        content matches Some(s) && text::denoted(text::trimmed(s), false) == Some(pid),
{
}

/// The lock is acquired by creating it and in no other way.
pub proof fn lemma_only_creation_acquires(path: Seq<char>, t: LockTry, event: LockEvent)
    ensures
        lifecycle::lock_outcome(path, t, event).1 == LockActionView::Done(LockState::Acquired)
            <==> event is Created,
{
}

/// A daemon is found running only where its process answered or could not be
/// asked, and it is the one whose process was looked at.
pub proof fn lemma_running_means_answered(path: Seq<char>, t: LockTry, event: LockEvent, pid: u32)
    requires
        lifecycle::lock_outcome(path, t, event).1 == LockActionView::Done(
            LockState::AlreadyRunning(pid),
        ),
    ensures
        event matches LockEvent::Checked { delivered, denied } && (delivered || denied),
        pid == t.checking,
{
}

/// A lock that was taken away is tried for again while tries are left.
pub proof fn lemma_removed_lock_is_tried_again(path: Seq<char>, t: LockTry)
    ensures
        t.left >= 2 ==> lifecycle::lock_outcome(path, t, LockEvent::Removed).1 is Create
            && lifecycle::lock_outcome(path, t, LockEvent::Removed).0.left == t.left - 1,
        t.left < 2 ==> (lifecycle::lock_outcome(path, t, LockEvent::Removed).1 matches
            LockActionView::Fail(why) && text::has_text(why, path)),
{
    text::lemma_has_middle("could not acquire "@, path, " after repeated attempts (lock churn?)"@);
}

/// What went wrong with the lock file is said with its path and its cause.
pub proof fn lemma_lock_faults_are_told(path: Seq<char>, t: LockTry, cause: String)
    ensures
        lifecycle::lock_outcome(path, t, LockEvent::NotCreated(cause)).1 matches
            LockActionView::Fail(why) && text::has_text(why, path) && text::closes_with(
            why,
            cause@,
        ),
        lifecycle::lock_outcome(path, t, LockEvent::NotWritten(cause)).1 matches
            LockActionView::Fail(why) && text::has_text(why, path) && text::closes_with(
            why,
            cause@,
        ),
        lifecycle::lock_outcome(path, t, LockEvent::NotRemoved(cause)).1 matches
            LockActionView::Fail(why) && text::has_text(why, path) && text::closes_with(
            why,
            cause@,
        ),
{
    lemma_path_and_cause("creating lock file "@, path, cause@);
    lemma_path_and_cause("writing pid to "@, path, cause@);
    lemma_path_and_cause("removing "@, path, cause@);
}

proof fn lemma_path_and_cause(doing: Seq<char>, path: Seq<char>, cause: Seq<char>)
    ensures
        text::has_text(doing + path + ": "@ + cause, path),
        text::closes_with(doing + path + ": "@ + cause, cause),
{
    let front = doing + path + ": "@;
    assert((front + cause).skip(front.len() as int) == cause);
    text::lemma_has_middle(doing, path, ": "@ + cause);
    assert(doing + path + (": "@ + cause) == front + cause);
}

// ---------------------------------------------------------------------------
// The run

/// A stage that went well is followed by the next: configuration, state
/// directory, lock, socket, storage, the record of the start, the runtime,
/// serving, the record of the stop, the end.
pub proof fn lemma_stages_follow(r: RunView, state_dir: Seq<char>)
    ensures
        ({
            let next = lifecycle::run_outcome(r, state_dir, StageEnd::Done);
            &&& r.stage is Config ==> next.stage is StateDir
            &&& r.stage is StateDir ==> next.stage is Lock
            &&& r.stage is Lock ==> next.stage is Socket && next.owns_lock
            &&& r.stage is Socket ==> next.stage is Storage && next.owns_socket
            &&& r.stage is Storage ==> next.stage is Started
            &&& r.stage is Started ==> next.stage is Runtime
            &&& r.stage is Runtime ==> next.stage is Serve
            &&& r.stage is Serve ==> next.stage is Stopped
            &&& r.stage is Stopped ==> next.stage is Exit
            &&& next.result == r.result
            &&& !(r.stage is Lock) ==> next.owns_lock == r.owns_lock
            &&& !(r.stage is Socket) ==> next.owns_socket == r.owns_socket
        }),
{
}

/// A start that fails ends the run with an error that says why; what is owned by
/// then stays owned, to be cleaned up.
pub proof fn lemma_failed_start_ends_the_run(r: RunView, state_dir: Seq<char>, cause: String)
    requires
        !(r.stage is Serve) && !(r.stage is Stopped) && !(r.stage is Exit),
    ensures
        ({
            let exit = lifecycle::run_outcome(r, state_dir, StageEnd::Failed(cause));
            &&& exit.stage is Exit
            &&& exit.owns_lock == r.owns_lock
            &&& exit.owns_socket == r.owns_socket
            &&& exit.result matches Err(why) && text::closes_with(why, cause@)
        }),
{
    lemma_cause_is_told(r.stage, state_dir, cause@);
}

proof fn lemma_cause_is_told(s: Stage, state_dir: Seq<char>, cause: Seq<char>)
    ensures
        text::closes_with(lifecycle::stage_error(s, state_dir, cause), cause),
        s is StateDir ==> text::has_text(
            lifecycle::stage_error(s, state_dir, cause),
            state_dir,
        ),
{
    lemma_path_and_cause("creating state directory "@, state_dir, cause);
    lemma_tail("loading configuration: "@, cause);
    lemma_tail("opening storage: "@, cause);
    lemma_tail("recording daemon_started event: "@, cause);
    lemma_tail("building tokio runtime: "@, cause);
    lemma_tail(Seq::empty(), cause);
    assert(Seq::<char>::empty() + cause == cause);
}

proof fn lemma_tail(front: Seq<char>, cause: Seq<char>)
    ensures
        text::closes_with(front + cause, cause),
{
    assert((front + cause).skip(front.len() as int) == cause);
}

// ---------------------------------------------------------------------------
// Records and reports

/// The record of a start names the process and its version, that of a stop the
/// process.
pub proof fn lemma_start_and_stop_are_told(pid: u32, version: Seq<char>)
    ensures
        holds(lifecycle::started_json(pid, version), "pid"@, JsonView::Int(pid as int)),
        holds(lifecycle::started_json(pid, version), "version"@, JsonView::Str(version)),
        holds(lifecycle::stopped_json(pid), "pid"@, JsonView::Int(pid as int)),
{
    lemma_holds(lifecycle::started_json(pid, version)->Object_0, 0);
    lemma_holds(lifecycle::started_json(pid, version)->Object_0, 1);
    lemma_holds(lifecycle::stopped_json(pid)->Object_0, 0);
}

/// A report shows every stored item in its place, as it is stored, with the
/// number of its requests that wait; and the daemon as it is.
pub proof fn lemma_report_mirrors_the_tables(
    h: DaemonHandler,
    t: TablesView,
    report: StatusReport,
    i: int,
)
    requires
        lifecycle::is_report(h, t, report),
        0 <= i < t.items.len(),
    ensures
        report.items@.len() == t.items.len(),
        report.items@[i].id == t.items[i].row.id,
        report.items@[i].ticket@ == t.items[i].row.ticket_key,
        report.items@[i].repo@ == t.items[i].row.repo,
        report.items@[i].state@ == t.items[i].row.state,
        report.items@[i].pending_gates == storage::pending_of(t, Some(t.items[i].row.id)).len(),
        report.daemon.version@ == h.version@,
        report.daemon.pid == h.pid,
        report.daemon.started_at@ == h.started_at@,
        report.daemon.state_dir@ == h.state_dir@,
{
    assert(storage::listed(t)[i] == t.items[i].row);
}

/// A report is made unless more requests wait on one item than can be counted.
pub proof fn lemma_reports_are_made(t: TablesView)
    requires
        t.gates.len() <= u32::MAX,
    ensures
        lifecycle::uncounted(t, storage::listed(t)) is None,
{
    lemma_all_counted(t, storage::listed(t));
}

proof fn lemma_all_counted(t: TablesView, rows: Seq<storage::WorkItemView>)
    requires
        t.gates.len() <= u32::MAX,
    ensures
        lifecycle::uncounted(t, rows) is None,
    decreases rows.len(),
{
    if rows.len() > 0 {
        lemma_all_counted(t, rows.drop_last());
        let id = rows.last().id;
        let keep = |g: storage::GateView| storage::is_pending(g, Some(id));
        lemma_filter_len(t.gates, keep);
        assert(storage::pending_of(t, Some(id)) == t.gates.filter(keep));
    }
}

proof fn lemma_filter_len<A>(s: Seq<A>, keep: spec_fn(A) -> bool)
    ensures
        s.filter(keep).len() <= s.len(),
    decreases s.len(),
{
    reveal(Seq::filter);
    if s.len() > 0 {
        lemma_filter_len(s.drop_last(), keep);
    }
}

} // verus!
