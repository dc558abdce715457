//! What the steps of the scheduler do to work items, their log and their gates.

use crate::adapters;
use crate::adapters::{
    AdapterError, AgentSessionId, AgentStatus, AgentStatusView, PrRef, Ticket, TicketView,
};
use crate::config;
use crate::gate;
use crate::json::JsonView;
use crate::scheduler;
use crate::scheduler::{AddPlanView, FinishStepView, Intake, Outcome, Run, Scheduler};
use crate::state;
use crate::state::WorkflowState;
use crate::storage;
use crate::storage::{EventView, ItemField, ItemView, TablesView, WorkItemView};
use crate::table;
use crate::text;
use crate::worktree;
use crate::worktree::WorktreeError;
use vstd::prelude::*;
use vstd::string::*;

verus! {

// ---------------------------------------------------------------------------
// Vocabulary

/// Whether an event's payload has a member with this value.
pub open spec fn says(e: EventView, key: Seq<char>, value: JsonView) -> bool {
    e.payload matches JsonView::Object(fields) && fields.contains((key, value))
}

/// Whether an event's payload has a text member that contains these words.
pub open spec fn tells(e: EventView, key: Seq<char>, words: Seq<char>) -> bool {
    exists|told: Seq<char>| #[trigger]
        says(e, key, JsonView::Str(told)) && text::has_text(told, words)
}

/// The first event that the later tables have and the earlier ones lack.
pub open spec fn first_new(t: TablesView, u: TablesView) -> EventView {
    u.events[t.events.len() as int]
}

/// Whether the later log is the earlier one and `n` events more.
pub open spec fn log_grew(t: TablesView, u: TablesView, n: int) -> bool {
    &&& u.events.len() == t.events.len() + n
    &&& forall|i: int| 0 <= i < t.events.len() ==> #[trigger] u.events[i] == t.events[i]
}

/// Whether an event is one that the system recorded for an item at a time.
pub open spec fn is_of(e: EventView, id: int, kind: Seq<char>, now: Seq<char>) -> bool {
    e.work_item_id == Some(id) && e.actor == "system"@ && e.kind == kind && e.ts == now
}

/// Whether no work item but one may have changed.
pub open spec fn others_same(t: TablesView, u: TablesView, id: int) -> bool {
    forall|other: int|
        other != id ==> #[trigger] storage::item_of(u, other) == storage::item_of(t, other)
}

/// Whether an item was parked: it is `escalated` and otherwise as it was, the
/// log says so and first says why, and nothing else changed.
pub open spec fn parked(t: TablesView, u: TablesView, id: int, kind: Seq<char>, now: Seq<char>) -> bool {
    &&& storage::item_of(t, id) matches Some(before) && storage::item_of(u, id) == Some(
        ItemView {
            row: WorkItemView { state: "escalated"@, updated_at: now, ..before.row },
            ..before
        },
    )
    &&& others_same(t, u, id)
    &&& u.gates == t.gates
    &&& log_grew(t, u, 2)
    &&& is_of(first_new(t, u), id, kind, now)
    &&& is_of(u.events.last(), id, "state_changed"@, now)
    &&& says(u.events.last(), "new"@, JsonView::Str("escalated"@))
}

/// Whether there is such an item and ids for two more events.
pub open spec fn has_room(t: TablesView, id: int) -> bool {
    storage::tables_ok(t) && storage::has_item(t, id) && storage::next_event_id(t) + 1 <= i64::MAX
}

/// Whether a command ran to a successful end.
pub open spec fn succeeded(run: Run) -> bool {
    run matches Run::Exited { success, .. } && success
}

// ---------------------------------------------------------------------------
// Building blocks

proof fn lemma_noted(t: TablesView, id: int, kind: Seq<char>, payload: JsonView, now: Seq<char>)
    requires
        has_room(t, id),
    ensures
        ({
            let u = scheduler::noted(t, id, kind, payload, now);
            &&& storage::appended(t, Some(id), "system"@, kind, payload, now) == Ok::<
                (TablesView, int),
                storage::StorageErrorView,
            >((u, storage::next_event_id(t)))
            &&& log_grew(t, u, 1)
            &&& is_of(first_new(t, u), id, kind, now)
            &&& first_new(t, u).payload == payload
            &&& u.items == t.items
            &&& u.gates == t.gates
            &&& storage::tables_ok(u)
            &&& storage::has_item(u, id)
            &&& storage::next_event_id(u) == storage::next_event_id(t) + 1
            &&& forall|i: int| #[trigger] storage::item_of(u, i) == storage::item_of(t, i)
        }),
{
    storage::lemma_appended_ok(t, Some(id), "system"@, kind, payload, now);
    let u = scheduler::noted(t, id, kind, payload, now);
    assert(storage::item_of(u, id) == storage::item_of(t, id));
}

proof fn lemma_parked(t: TablesView, id: int, kind: Seq<char>, payload: JsonView, now: Seq<char>)
    requires
        has_room(t, id),
    ensures
        ({
            let u = scheduler::escalated(t, id, kind, payload, now);
            parked(t, u, id, kind, now) && first_new(t, u).payload == payload
        }),
{
    lemma_noted(t, id, kind, payload, now);
    let logged = scheduler::noted(t, id, kind, payload, now);
    let u = scheduler::escalated(t, id, kind, payload, now);
    let to = state::state_text(WorkflowState::Escalated);
    storage::lemma_state_update_succeeds(logged, id, to, now);
    storage::lemma_state_change_appends(logged, u, id, to, now);
    assert forall|other: int| other != id implies #[trigger] storage::item_of(u, other)
        == storage::item_of(t, other) by {
        storage::lemma_state_change_is_local(logged, u, id, to, now, other);
        assert(storage::item_of(logged, other) == storage::item_of(t, other));
    }
    storage::lemma_state_change_is_local(logged, u, id, to, now, id);
    assert(storage::item_of(logged, id) == storage::item_of(t, id));
    assert forall|i: int| 0 <= i < t.events.len() implies #[trigger] u.events[i] == t.events[i] by {
        assert(u.events.drop_last()[i] == logged.events[i]);
    }
    assert(u.events.drop_last()[t.events.len() as int] == logged.events[t.events.len() as int]);
    let before = storage::item_of(t, id)->0;
    let fields = seq![
        ("new"@, JsonView::Str("escalated"@)),
        ("old"@, JsonView::Str(before.row.state)),
    ];
    assert(fields[0] == ("new"@, JsonView::Str("escalated"@)));
}

/// A member that stands at a position of the payload is said.
proof fn lemma_says(e: EventView, fields: Seq<(Seq<char>, JsonView)>, i: int)
    requires
        e.payload == JsonView::Object(fields),
        0 <= i < fields.len(),
    ensures
        says(e, fields[i].0, fields[i].1),
{
    assert(fields.contains(fields[i]));
}

/// A message built around some words tells them.
proof fn lemma_tells(e: EventView, a: Seq<char>, words: Seq<char>, b: Seq<char>)
    requires
        e.payload == scheduler::error_json(a + words + b),
    ensures
        tells(e, "error"@, words),
{
    let fields = seq![("error"@, JsonView::Str(a + words + b))];
    lemma_says(e, fields, 0);
    text::lemma_has_middle(a, words, b);
}

// ---------------------------------------------------------------------------
// Finishing an item

/// Checks that did not succeed stop the pipeline: nothing is pushed, the item
/// is parked, and the log says what the command left behind.
pub proof fn lemma_failed_checks_stop(
    t: TablesView,
    id: int,
    branch: Seq<char>,
    worktree: Seq<char>,
    checks: Seq<Seq<char>>,
    run: Run,
    now: Seq<char>,
)
    requires
        has_room(t, id),
        !succeeded(run),
    ensures
        ({
            let (u, step) = scheduler::checks_settled(t, id, branch, worktree, checks, run, now);
            let why = first_new(t, u);
            &&& step is Stop
            &&& parked(t, u, id, "check_failed"@, now)
            &&& match run {
                Run::Exited { code: Some(c), .. } => says(
                    why,
                    "exit_code"@,
                    JsonView::Int(c as int),
                ),
                Run::Exited { code: None, .. } => says(why, "exit_code"@, JsonView::Null),
                Run::NotStarted(e) => says(why, "error"@, JsonView::Str(e@)),
                Run::Lost(m) => says(why, "error"@, JsonView::Str(m@)),
            }
            &&& run matches Run::Exited { stderr, .. } ==> exists|kept: Seq<char>| #[trigger]
                says(why, "stderr_tail"@, JsonView::Str(kept)) && kept.is_suffix_of(stderr@)
                    && kept.len() == if stderr@.len() < 2000 {
                    stderr@.len()
                } else {
                    2000
                }
            &&& !(run is Lost) ==> exists|list: Seq<JsonView>| #[trigger]
                says(why, "command"@, JsonView::List(list)) && list.len() == checks.len()
                    && forall|i: int|
                    0 <= i < checks.len() ==> #[trigger] list[i] == JsonView::Str(checks[i])
        }),
{
    let u = scheduler::checks_settled(t, id, branch, worktree, checks, run, now).0;
    let list = Seq::new(checks.len(), |i: int| JsonView::Str(checks[i]));
    let command = ("command"@, JsonView::List(list));
    match run {
        Run::Exited { success, code, stderr } => {
            let kept = scheduler::last_of(stderr@, 2000);
            let fields = seq![
                command,
                ("exit_code"@, crate::json::nullable_int(scheduler::opt_code(code))),
                ("stderr_tail"@, JsonView::Str(kept)),
            ];
            lemma_parked(t, id, "check_failed"@, JsonView::Object(fields), now);
            lemma_says(first_new(t, u), fields, 0);
            lemma_says(first_new(t, u), fields, 1);
            lemma_says(first_new(t, u), fields, 2);
            assert(says(first_new(t, u), "stderr_tail"@, JsonView::Str(kept)));
            assert(says(first_new(t, u), "command"@, JsonView::List(list)));
            assert(kept.is_suffix_of(stderr@));
        },
        Run::NotStarted(e) => {
            let fields = seq![command, ("error"@, JsonView::Str(e@))];
            lemma_parked(t, id, "check_failed"@, JsonView::Object(fields), now);
            lemma_says(first_new(t, u), fields, 0);
            lemma_says(first_new(t, u), fields, 1);
            assert(says(first_new(t, u), "command"@, JsonView::List(list)));
        },
        Run::Lost(m) => {
            lemma_parked(t, id, "check_failed"@, scheduler::error_json(m@), now);
            lemma_says(first_new(t, u), seq![("error"@, JsonView::Str(m@))], 0);
        },
    }
}

/// A push follows the checks exactly when they succeeded, and then it pushes
/// the item's branch from its worktree; the item stays as it is.
pub proof fn lemma_push_follows_passed_checks(
    t: TablesView,
    id: int,
    branch: Seq<char>,
    worktree: Seq<char>,
    checks: Seq<Seq<char>>,
    run: Run,
    now: Seq<char>,
)
    requires
        has_room(t, id),
    ensures
        ({
            let (u, step) = scheduler::checks_settled(t, id, branch, worktree, checks, run, now);
            &&& step is Push <==> succeeded(run)
            &&& !(step is Push) ==> step is Stop
            &&& step is Push ==> {
                &&& pushes(step, branch, worktree)
                &&& u.items == t.items
                &&& u.gates == t.gates
                &&& log_grew(t, u, 1)
                &&& is_of(first_new(t, u), id, "check_passed"@, now)
            }
        }),
{
    if succeeded(run) {
        let command = ("command"@, crate::json::text_list(checks));
        lemma_noted(t, id, "check_passed"@, JsonView::Object(seq![command]), now);
    }
}

/// Whether a step runs `git push` in the worktree and names the branch and its
/// remote.
pub open spec fn pushes(step: FinishStepView, branch: Seq<char>, worktree: Seq<char>) -> bool {
    step matches FinishStepView::Push { argv, cwd } && cwd == worktree && argv.len() == 5 && argv[0]
        == "git"@ && argv[1] == "push"@ && argv[2] == "-u"@ && argv[3] == "origin"@ && argv[4]
        == branch
}

/// An item with a branch and a worktree has its configured checks run there,
/// or is pushed where there are none, and nothing changes. Any other is parked.
pub proof fn lemma_finishing_starts(
    t: TablesView,
    row: WorkItemView,
    checks: Seq<Seq<char>>,
    now: Seq<char>,
)
    ensures
        ({
            let (u, step) = scheduler::finish_started(t, row, checks, now);
            if row.branch is Some && row.worktree_path is Some {
                &&& u == t
                &&& checks.len() > 0 ==> step == FinishStepView::Check {
                    argv: checks,
                    cwd: row.worktree_path->0,
                }
                &&& checks.len() == 0 ==> pushes(step, row.branch->0, row.worktree_path->0)
            } else {
                &&& step is Stop
                &&& has_room(t, row.id) ==> parked(t, u, row.id, "pipeline_failed"@, now)
                    && says(
                    first_new(t, u),
                    "error"@,
                    JsonView::Str("work item has no branch/worktree recorded"@),
                )
            }
        }),
{
    if !(row.branch is Some && row.worktree_path is Some) && has_room(t, row.id) {
        let msg = "work item has no branch/worktree recorded"@;
        lemma_parked(t, row.id, "pipeline_failed"@, scheduler::error_json(msg), now);
        let u = scheduler::finish_started(t, row, checks, now).0;
        lemma_says(first_new(t, u), seq![("error"@, JsonView::Str(msg))], 0);
    }
}

/// A push that did not succeed stops the pipeline: no ticket is fetched and no
/// pull request asked for, the item is parked, and the log says why.
pub proof fn lemma_failed_push_stops(
    s: Scheduler,
    t: TablesView,
    row: WorkItemView,
    branch: Seq<char>,
    run: Run,
    now: Seq<char>,
)
    requires
        has_room(t, row.id),
        !succeeded(run),
    ensures
        ({
            let (u, step) = scheduler::push_settled(s, t, row, branch, run, now);
            let why = first_new(t, u);
            &&& step is Stop
            &&& parked(t, u, row.id, "push_failed"@, now)
            &&& !(run is Lost) ==> says(why, "branch"@, JsonView::Str(branch))
            &&& match run {
                Run::Exited { code: Some(c), .. } => says(
                    why,
                    "exit_code"@,
                    JsonView::Int(c as int),
                ),
                Run::Exited { code: None, .. } => says(why, "exit_code"@, JsonView::Null),
                Run::NotStarted(e) => says(why, "error"@, JsonView::Str(e@)),
                Run::Lost(m) => says(why, "error"@, JsonView::Str(m@)),
            }
            &&& run matches Run::Exited { stderr, .. } ==> exists|kept: Seq<char>| #[trigger]
                says(why, "stderr_tail"@, JsonView::Str(kept)) && kept.is_suffix_of(stderr@)
                    && kept.len() == if stderr@.len() < 2000 {
                    stderr@.len()
                } else {
                    2000
                }
        }),
{
    let id = row.id;
    let u = scheduler::push_settled(s, t, row, branch, run, now).0;
    let pushed = ("branch"@, JsonView::Str(branch));
    match run {
        Run::Exited { success, code, stderr } => {
            let kept = scheduler::last_of(stderr@, 2000);
            let fields = seq![
                pushed,
                ("exit_code"@, crate::json::nullable_int(scheduler::opt_code(code))),
                ("stderr_tail"@, JsonView::Str(kept)),
            ];
            lemma_parked(t, id, "push_failed"@, JsonView::Object(fields), now);
            lemma_says(first_new(t, u), fields, 0);
            lemma_says(first_new(t, u), fields, 1);
            lemma_says(first_new(t, u), fields, 2);
            assert(says(first_new(t, u), "stderr_tail"@, JsonView::Str(kept)));
            assert(kept.is_suffix_of(stderr@));
        },
        Run::NotStarted(e) => {
            let fields = seq![pushed, ("error"@, JsonView::Str(e@))];
            lemma_parked(t, id, "push_failed"@, JsonView::Object(fields), now);
            lemma_says(first_new(t, u), fields, 0);
            lemma_says(first_new(t, u), fields, 1);
        },
        Run::Lost(m) => {
            lemma_parked(t, id, "push_failed"@, scheduler::error_json(m@), now);
            lemma_says(first_new(t, u), seq![("error"@, JsonView::Str(m@))], 0);
        },
    }
}

/// A push that succeeded is on record, and the item's own ticket is fetched
/// next. Where its provider is not in use, the item is parked instead.
pub proof fn lemma_ticket_is_fetched_after_the_push(
    s: Scheduler,
    t: TablesView,
    row: WorkItemView,
    branch: Seq<char>,
    run: Run,
    now: Seq<char>,
)
    requires
        has_room(t, row.id),
        storage::next_event_id(t) + 2 <= i64::MAX,
        succeeded(run),
    ensures
        ({
            let (u, step) = scheduler::push_settled(s, t, row, branch, run, now);
            &&& is_of(first_new(t, u), row.id, "branch_pushed"@, now)
            &&& says(first_new(t, u), "branch"@, JsonView::Str(branch))
            &&& u.gates == t.gates
            &&& table::lookup(s.providers@, row.provider) is Some ==> {
                &&& step matches FinishStepView::Fetch(key) && key.provider == row.provider
                    && key.key == row.ticket_key
                &&& u.items == t.items
                &&& log_grew(t, u, 1)
            }
            &&& table::lookup(s.providers@, row.provider) is None ==> {
                &&& step is Stop
                &&& storage::item_of(u, row.id) matches Some(item) && item.row.state
                    == "escalated"@
                &&& log_grew(t, u, 3)
                &&& is_of(u.events[t.events.len() as int + 1], row.id, "pr_draft_failed"@, now)
                &&& tells(u.events[t.events.len() as int + 1], "error"@, row.provider)
            }
        }),
{
    let id = row.id;
    let pushed = ("branch"@, JsonView::Str(branch));
    let fields = seq![pushed, ("remote"@, JsonView::Str("origin"@))];
    let payload = JsonView::Object(fields);
    lemma_noted(t, id, "branch_pushed"@, payload, now);
    let logged = scheduler::noted(t, id, "branch_pushed"@, payload, now);
    let u = scheduler::push_settled(s, t, row, branch, run, now).0;
    if table::lookup(s.providers@, row.provider) is None {
        let msg = "provider '"@ + row.provider + "' is not usable"@;
        lemma_parked(logged, id, "pr_draft_failed"@, scheduler::error_json(msg), now);
        lemma_tells(first_new(logged, u), "provider '"@, row.provider, "' is not usable"@);
        assert(u.events[t.events.len() as int] == logged.events[t.events.len() as int]);
        assert forall|i: int| 0 <= i < t.events.len() implies #[trigger] u.events[i]
            == t.events[i] by {
            assert(u.events[i] == logged.events[i]);
        }
    }
    lemma_says(first_new(t, u), fields, 0);
}

/// Whether a draft asks for a pull request from a branch of the item onto the
/// base, in the remote repository, as a draft, titled by the ticket's key and
/// title and carrying the agent's summary.
pub open spec fn draft_fits(
    d: adapters::PrDraftView,
    remote: Seq<char>,
    base: Seq<char>,
    ticket: TicketView,
    branch: Seq<char>,
    summary: Seq<char>,
) -> bool {
    &&& d.repo == remote
    &&& d.base == base
    &&& d.head == branch
    &&& d.draft
    &&& d.title == ticket.key.key + ": "@ + ticket.title
    &&& summary.len() > 0 ==> summary.is_suffix_of(d.body)
    &&& summary.len() == 0 ==> "(no agent summary)"@.is_suffix_of(d.body)
}

/// Whether a body closes its ticket with the keyword that the forge reads.
pub open spec fn closes(d: adapters::PrDraftView, number: Seq<char>) -> bool {
    text::opens_with(d.body, "Closes #"@ + number + ".\n\n"@)
}

/// A pull request is asked for with the ticket's and the agent's own words. It
/// closes the ticket exactly where it lands in the ticket's own repository.
pub proof fn lemma_draft_fits(
    remote: Seq<char>,
    base: Seq<char>,
    ticket: TicketView,
    branch: Seq<char>,
    summary: Seq<char>,
    number: Seq<char>,
)
    ensures
        ({
            let d = scheduler::draft_for(Some(remote), base, ticket, branch, summary)->Ok_0;
            &&& scheduler::draft_for(Some(remote), base, ticket, branch, summary) is Ok
            &&& draft_fits(d, remote, base, ticket, branch, summary)
            &&& ticket.key.key == remote + "#"@ + number ==> closes(d, number)
            &&& !text::opens_with(ticket.key.key, remote + "#"@) ==> d.body == if summary.len()
                == 0 {
                "(no agent summary)"@
            } else {
                summary
            }
        }),
{
    let d = scheduler::draft_for(Some(remote), base, ticket, branch, summary)->Ok_0;
    reveal_strlit("#");
    assert(remote.push('#') =~= remote + "#"@);
    let said = if summary.len() == 0 {
        "(no agent summary)"@
    } else {
        summary
    };
    let n = d.body.len() - said.len();
    assert(d.body.skip(n) =~= said);
    assert(d.body.subrange(n, d.body.len() as int) =~= said);
    if ticket.key.key == remote + "#"@ + number {
        let prefix = remote + "#"@;
        assert(ticket.key.key.take(prefix.len() as int) =~= prefix);
        assert(ticket.key.key.skip(prefix.len() as int) =~= number);
        let head = "Closes #"@ + number + ".\n\n"@;
        assert(d.body.take(head.len() as int) =~= head);
    }
}

/// Whoever has no remote repository, or no ticket, gets no gate: the item is
/// parked and the log says why.
pub proof fn lemma_no_draft_no_gate(
    t: TablesView,
    row: WorkItemView,
    remote_repo: Option<Seq<char>>,
    base: Seq<char>,
    branch: Seq<char>,
    summary: Seq<char>,
    ticket: Result<TicketView, Seq<char>>,
    now: Seq<char>,
)
    requires
        has_room(t, row.id),
        ticket is Err || remote_repo is None,
    ensures
        ({
            let u = scheduler::draft_settled(
                t,
                row,
                remote_repo,
                base,
                branch,
                summary,
                ticket,
                now,
            );
            &&& parked(t, u, row.id, "pr_draft_failed"@, now)
            &&& ticket matches Err(m) ==> says(first_new(t, u), "error"@, JsonView::Str(m))
        }),
{
    let u = scheduler::draft_settled(t, row, remote_repo, base, branch, summary, ticket, now);
    let m = match ticket {
        Err(m) => m,
        Ok(_) => scheduler::draft_for(None, base, ticket->Ok_0, branch, summary)->Err_0,
    };
    lemma_parked(t, row.id, "pr_draft_failed"@, scheduler::error_json(m), now);
    lemma_says(first_new(t, u), seq![("error"@, JsonView::Str(m))], 0);
}

/// Where a gate request cannot be stored the item is parked.
pub proof fn lemma_lost_gate_parks(
    t: TablesView,
    row: WorkItemView,
    remote_repo: Option<Seq<char>>,
    base: Seq<char>,
    branch: Seq<char>,
    summary: Seq<char>,
    ticket: TicketView,
    now: Seq<char>,
)
    requires
        has_room(t, row.id),
        storage::next_gate_id(t) > i64::MAX,
    ensures
        parked(
            t,
            scheduler::draft_settled(t, row, remote_repo, base, branch, summary, Ok(ticket), now),
            row.id,
            "pr_draft_failed"@,
            now,
        ),
{
    let m = match scheduler::draft_for(remote_repo, base, ticket, branch, summary) {
        Err(m) => m,
        Ok(_) => storage::storage_message(storage::full_error()),
    };
    lemma_parked(t, row.id, "pr_draft_failed"@, scheduler::error_json(m), now);
}

/// A fetched ticket stands at its gate: one pending request of the item asks to
/// create exactly the pull request that fits, nothing is pushed or created, and
/// no work item changes.
pub proof fn lemma_gate_holds_the_draft(
    t: TablesView,
    row: WorkItemView,
    remote: Seq<char>,
    base: Seq<char>,
    branch: Seq<char>,
    summary: Seq<char>,
    ticket: TicketView,
    now: Seq<char>,
)
    requires
        has_room(t, row.id),
        storage::next_gate_id(t) <= i64::MAX,
    ensures
        ({
            let u = scheduler::draft_settled(
                t,
                row,
                Some(remote),
                base,
                branch,
                summary,
                Ok(ticket),
                now,
            );
            let g = u.gates.last();
            &&& u.items == t.items
            &&& u.gates.drop_last() == t.gates
            &&& u.gates.len() == t.gates.len() + 1
            &&& g.status == "pending"@
            &&& g.action_kind == "create_pr"@
            &&& g.work_item_id == row.id
            &&& g.created_at == now
            &&& g.resolved_by is None
            &&& adapters::draft_of(g.payload) matches Ok(d) && draft_fits(
                d,
                remote,
                base,
                ticket,
                branch,
                summary,
            )
            &&& log_grew(t, u, 1)
            &&& is_of(first_new(t, u), row.id, "gate_requested"@, now)
            &&& says(first_new(t, u), "gate_id"@, JsonView::Int(g.id))
            &&& says(first_new(t, u), "action"@, JsonView::Str("create_pr"@))
        }),
{
    let u = scheduler::draft_settled(t, row, Some(remote), base, branch, summary, Ok(ticket), now);
    let draft = scheduler::draft_for(Some(remote), base, ticket, branch, summary)->Ok_0;
    let action = gate::action_text(gate::GatedAction::CreatePr);
    storage::lemma_request_succeeds(t, row.id, action, adapters::draft_json(draft), now);
    adapters::lemma_draft_round_trip(draft);
    lemma_draft_fits(remote, base, ticket, branch, summary, Seq::empty());
    let fields = seq![
        ("action"@, JsonView::Str("create_pr"@)),
        ("gate_id"@, JsonView::Int(storage::next_gate_id(t))),
    ];
    lemma_says(first_new(t, u), fields, 0);
    lemma_says(first_new(t, u), fields, 1);
    assert(u.gates.drop_last() =~= t.gates);
}

// ---------------------------------------------------------------------------
// Supervising agents

/// An agent that ended without success parks its item, and the log carries the
/// agent's own words.
pub proof fn lemma_failed_agent_parks(
    t: TablesView,
    asked: bool,
    id: int,
    session: Seq<char>,
    status: AgentStatus,
    now: Seq<char>,
)
    requires
        has_room(t, id),
        status@ is Failed || (status@ matches AgentStatusView::Finished { success, .. } && !success),
    ensures
        ({
            let u = scheduler::polled(t, asked, id, session, Outcome::Done(status), now);
            &&& parked(t, u, id, "agent_failed"@, now)
            &&& status@ matches AgentStatusView::Finished { summary, .. } ==> says(
                first_new(t, u),
                "summary"@,
                JsonView::Str(summary),
            )
            &&& status@ matches AgentStatusView::Failed { message } ==> says(
                first_new(t, u),
                "message"@,
                JsonView::Str(message),
            )
            &&& !scheduler::asked_after(t, asked, id, session, Outcome::Done(status), now)
        }),
{
    let u = scheduler::polled(t, asked, id, session, Outcome::Done(status), now);
    let fields = match status@ {
        AgentStatusView::Finished { summary, .. } => seq![("summary"@, JsonView::Str(summary))],
        AgentStatusView::Failed { message } => seq![("message"@, JsonView::Str(message))],
        _ => seq![],
    };
    lemma_parked(t, id, "agent_failed"@, JsonView::Object(fields), now);
    lemma_says(first_new(t, u), fields, 0);
}

/// An agent that runs or has succeeded, and a status that could not be had,
/// leave the tables as they are.
pub proof fn lemma_quiet_statuses_change_nothing(
    t: TablesView,
    asked: bool,
    id: int,
    session: Seq<char>,
    o: Outcome<AgentStatus, AdapterError>,
    now: Seq<char>,
)
    requires
        o matches Outcome::Done(status) ==> status@ is Running || (
        status@ matches AgentStatusView::Finished { success, .. } && success),
    ensures
        scheduler::polled(t, asked, id, session, o, now) == t,
        o is Done ==> !scheduler::asked_after(t, asked, id, session, o, now),
        !(o is Done) ==> scheduler::asked_after(t, asked, id, session, o, now) == asked,
{
}

/// A new question is recorded once, with its words and its session, and counts
/// as asked from then on. The item goes on.
pub proof fn lemma_question_is_recorded(
    t: TablesView,
    id: int,
    session: Seq<char>,
    status: AgentStatus,
    now: Seq<char>,
)
    requires
        has_room(t, id),
        status@ is WaitingInput,
    ensures
        ({
            let o = Outcome::Done(status);
            let u = scheduler::polled(t, false, id, session, o, now);
            &&& status@ matches AgentStatusView::WaitingInput { prompt } && says(
                first_new(t, u),
                "prompt"@,
                JsonView::Str(prompt),
            )
            &&& says(first_new(t, u), "session"@, JsonView::Str(session))
            &&& is_of(first_new(t, u), id, "agent_question"@, now)
            &&& log_grew(t, u, 1)
            &&& u.items == t.items
            &&& u.gates == t.gates
            &&& scheduler::asked_after(t, false, id, session, o, now)
            &&& scheduler::polled(u, true, id, session, o, now) == u
        }),
{
    let prompt = status@->prompt;
    let fields = seq![("prompt"@, JsonView::Str(prompt)), ("session"@, JsonView::Str(session))];
    lemma_noted(t, id, "agent_question"@, JsonView::Object(fields), now);
    let u = scheduler::polled(t, false, id, session, Outcome::Done(status), now);
    lemma_says(first_new(t, u), fields, 0);
    lemma_says(first_new(t, u), fields, 1);
}

/// A question that could not be recorded is asked again.
pub proof fn lemma_unrecorded_question_stands(
    t: TablesView,
    id: int,
    session: Seq<char>,
    status: AgentStatus,
    now: Seq<char>,
)
    requires
        status@ is WaitingInput,
        storage::next_event_id(t) > i64::MAX || !storage::has_item(t, id),
    ensures
        scheduler::polled(t, false, id, session, Outcome::Done(status), now) == t,
        !scheduler::asked_after(t, false, id, session, Outcome::Done(status), now),
{
}

// ---------------------------------------------------------------------------
// Adding a ticket

/// A ticket reference is resolved to what it says: a configured provider before
/// the first colon and the key behind it, or the only provider there is and the
/// whole reference.
pub proof fn lemma_ticket_ref_is_read(c: config::Config, provider: Seq<char>, key: Seq<char>)
    requires
        !provider.contains(':'),
        table::lookup(c.providers@, provider) is Some,
    ensures
        scheduler::ticket_ref(c, provider + ":"@ + key) == Ok::<
            (Seq<char>, Seq<char>),
            Seq<char>,
        >((provider, key)),
{
    reveal_strlit(":");
    let s = provider + ":"@ + key;
    assert forall|j: int| 0 <= j < provider.len() implies s[j] != ':' by {
        assert(provider.contains(provider[j]));
        assert(s[j] == provider[j]);
    }
    text::lemma_first_at(s, ':', provider.len() as int);
    assert(s.take(provider.len() as int) =~= provider);
    assert(s.skip(provider.len() as int + 1) =~= key);
}

/// A reference without a configured prefix goes to the only provider, whole;
/// with several providers, or none, it is refused.
pub proof fn lemma_lone_key_needs_one_provider(c: config::Config, ticket: Seq<char>)
    requires
        text::cut_at(ticket, ':') matches Some((prefix, _)) ==> table::lookup(
            c.providers@,
            prefix,
        ) is None,
    ensures
        c.providers@.len() == 1 ==> scheduler::ticket_ref(c, ticket) == Ok::<
            (Seq<char>, Seq<char>),
            Seq<char>,
        >((c.providers@[0].0, ticket)),
        c.providers@.len() != 1 ==> scheduler::ticket_ref(c, ticket) is Err,
{
}

/// The repository is the one that was named, or the only one there is.
pub proof fn lemma_repo_is_chosen(c: config::Config, name: Seq<char>)
    ensures
        table::lookup(c.repos@, name) is Some ==> scheduler::repo_choice(c, Some(name)) == Ok::<
            Seq<char>,
            Seq<char>,
        >(name),
        table::lookup(c.repos@, name) is None ==> scheduler::repo_choice(c, Some(name)) is Err,
        c.repos@.len() == 1 ==> scheduler::repo_choice(c, None) == Ok::<Seq<char>, Seq<char>>(
            c.repos@[0].0,
        ),
        c.repos@.len() != 1 ==> scheduler::repo_choice(c, None) is Err,
{
}

/// A plan is made exactly where the reference and the repository resolve, the
/// repository belongs to the ticket's provider, and that provider is in use;
/// and then it names these three.
pub proof fn lemma_plan_belongs_together(s: Scheduler, ticket: Seq<char>, repo: Option<Seq<char>>)
    ensures
        scheduler::add_plan(s, ticket, repo) matches Ok(p) ==> {
            &&& scheduler::ticket_ref(s.config, ticket) == Ok::<
                (Seq<char>, Seq<char>),
                Seq<char>,
            >((p.provider, p.key))
            &&& scheduler::repo_choice(s.config, repo) == Ok::<Seq<char>, Seq<char>>(p.repo)
            &&& text::opt_text((table::lookup(s.config.repos@, p.repo)->0).provider) == Some(
                p.provider,
            )
            &&& table::lookup(s.providers@, p.provider) is Some
        },
        match (scheduler::ticket_ref(s.config, ticket), scheduler::repo_choice(s.config, repo)) {
            (Ok((provider, _)), Ok(name)) => text::opt_text(
                (table::lookup(s.config.repos@, name)->0).provider,
            ) == Some(provider) && table::lookup(s.providers@, provider) is Some
                ==> scheduler::add_plan(s, ticket, repo) is Ok,
            _ => true,
        },
{
}

/// A ticket that could not be fetched, or is not assigned to the user, leaves
/// no trace and is refused; one that is, is taken in.
pub proof fn lemma_only_my_ticket_is_taken_in(
    t: TablesView,
    plan: AddPlanView,
    user: Seq<char>,
    template: Seq<char>,
    ty: Option<Seq<char>>,
    ticket: Result<TicketView, Seq<char>>,
    now: Seq<char>,
)
    ensures
        !(ticket matches Ok(mine) && mine.assignee == Some(user)) ==> {
            let (u, r) = scheduler::taken_in(t, plan, user, template, ty, ticket, now);
            u == t && r is Err
        },
        ticket matches Ok(mine) && mine.assignee == Some(user) ==> scheduler::taken_in(
            t,
            plan,
            user,
            template,
            ty,
            ticket,
            now,
        ) == scheduler::intake(t, plan, template, ty, ticket->Ok_0, now),
{
}

/// What an outcome of fetching means: the ticket itself, or words that carry
/// the cause.
pub proof fn lemma_fetch_outcomes(key: Seq<char>, o: Outcome<Ticket, AdapterError>)
    ensures
        o matches Outcome::Done(ticket) ==> scheduler::fetched(key, o) == Ok::<
            TicketView,
            Seq<char>,
        >(ticket@),
        o matches Outcome::Lost(m) ==> scheduler::fetched(key, o) == Err::<
            TicketView,
            Seq<char>,
        >(m@),
        o matches Outcome::Failed(e) ==> (scheduler::fetched(key, o) matches Err(m)
            && text::has_text(m, key) && text::has_text(m, adapters::adapter_message(e@))),
{
    if let Outcome::Failed(e) = o {
        let cause = adapters::adapter_message(e@);
        let head = "fetching ticket "@;
        text::lemma_has_middle(head, key, ": "@ + cause);
        assert(head + key + (": "@ + cause) =~= head + key + ": "@ + cause);
        text::lemma_has_middle(head + key + ": "@, cause, Seq::empty());
        assert(head + key + ": "@ + cause + Seq::<char>::empty() =~= head + key + ": "@ + cause);
    }
}

/// A ticket that is taken in is a work item of its own: `queued`, of the plan's
/// provider and repository, under the ticket's key, on the ticket's branch. The
/// log opens with the ticket's own words.
pub proof fn lemma_intake_queues(
    t: TablesView,
    plan: AddPlanView,
    template: Seq<char>,
    ty: Option<Seq<char>>,
    ticket: TicketView,
    now: Seq<char>,
)
    requires
        storage::tables_ok(t),
        !storage::is_tracked(t, plan.provider, ticket.key.key, plan.repo),
        scheduler::branch_of(template, ty, ticket.key.key, ticket.title) is Ok,
        storage::next_item_id(t) <= i64::MAX,
        storage::next_event_id(t) + 1 <= i64::MAX,
    ensures
        ({
            let (u, r) = scheduler::intake(t, plan, template, ty, ticket, now);
            let item = u.items.last();
            let branch = scheduler::branch_of(template, ty, ticket.key.key, ticket.title)->Ok_0;
            let added = first_new(t, u);
            &&& r == Ok::<(int, Seq<char>), Seq<char>>((item.row.id, branch))
            &&& u.items.len() == t.items.len() + 1
            &&& u.items.drop_last() == t.items
            &&& u.gates == t.gates
            &&& !storage::has_item(t, item.row.id)
            &&& item.row.provider == plan.provider
            &&& item.row.ticket_key == ticket.key.key
            &&& item.row.repo == plan.repo
            &&& item.row.state == "queued"@
            &&& item.row.branch == Some(branch)
            &&& item.row.worktree_path is None
            &&& item.row.pr_ref is None
            &&& item.agent_session is None
            &&& item.row.created_at == now
            &&& log_grew(t, u, 2)
            &&& is_of(added, item.row.id, "ticket_added"@, now)
            &&& says(added, "provider"@, JsonView::Str(plan.provider))
            &&& says(added, "ticket"@, JsonView::Str(ticket.key.key))
            &&& says(added, "title"@, JsonView::Str(ticket.title))
            &&& says(added, "url"@, JsonView::Str(ticket.url))
        }),
{
    let key = ticket.key.key;
    let known = state::state_text(WorkflowState::Known);
    let queued = state::state_text(WorkflowState::Queued);
    let (a, id) = storage::item_created(t, plan.provider, key, plan.repo, known, now)->Ok_0;
    storage::lemma_creation_is_local(t, a, plan.provider, key, plan.repo, known, now, id, id);
    let payload = scheduler::added_payload(plan.provider, ticket);
    let kind = "ticket_added"@;
    storage::lemma_appended_ok(a, Some(id), "system"@, kind, payload, now);
    let b = storage::appended(a, Some(id), "system"@, kind, payload, now)->Ok_0.0;
    assert(storage::item_of(b, id) == storage::item_of(a, id));
    storage::lemma_state_update_succeeds(b, id, queued, now);
    let c = storage::state_updated(b, id, queued, now)->Ok_0;
    storage::lemma_state_change_is_local(b, c, id, queued, now, id);
    storage::lemma_state_change_appends(b, c, id, queued, now);
    let branch = scheduler::branch_of(template, ty, key, ticket.title)->Ok_0;
    let d = storage::field_set(c, id, ItemField::Branch, branch, now)->Ok_0;
    storage::lemma_field_set_is_local(c, d, id, ItemField::Branch, branch, now, id);
    let u = scheduler::intake(t, plan, template, ty, ticket, now).0;
    assert(u == d);
    let n = t.items.len() as int;
    assert(a.items.last().row.id == id);
    assert(a.items[n].row.id == id);
    assert(b.items[n].row.id == id);
    assert(c.items[n].row.id == id);
    assert(d.items[n].row.id == id);
    storage::lemma_item_of(d, n);
    assert(u.items.drop_last() =~= t.items) by {
        assert forall|i: int| 0 <= i < n implies d.items[i] == t.items[i] by {
            assert(a.items[i] == t.items[i]);
            assert(t.items[i].row.id != id);
        }
    }
    assert(c.events.drop_last() =~= b.events);
    assert forall|i: int| 0 <= i < t.events.len() implies #[trigger] u.events[i] == t.events[i] by {
        assert(c.events.drop_last()[i] == b.events[i]);
    }
    assert(c.events.drop_last()[t.events.len() as int] == b.events[t.events.len() as int]);
    let fields = seq![
        ("provider"@, JsonView::Str(plan.provider)),
        ("ticket"@, JsonView::Str(ticket.key.key)),
        ("title"@, JsonView::Str(ticket.title)),
        ("url"@, JsonView::Str(ticket.url)),
    ];
    lemma_says(first_new(t, u), fields, 0);
    lemma_says(first_new(t, u), fields, 1);
    lemma_says(first_new(t, u), fields, 2);
    lemma_says(first_new(t, u), fields, 3);
}

/// A ticket that is tracked already is refused and changes nothing.
pub proof fn lemma_second_intake_is_refused(
    t: TablesView,
    plan: AddPlanView,
    template: Seq<char>,
    ty: Option<Seq<char>>,
    ticket: TicketView,
    now: Seq<char>,
)
    requires
        storage::is_tracked(t, plan.provider, ticket.key.key, plan.repo),
    ensures
        scheduler::intake(t, plan, template, ty, ticket, now).0 == t,
        scheduler::intake(t, plan, template, ty, ticket, now).1 is Err,
{
}

/// A worktree that was made is on record, in the item and in the log, and the
/// item goes on.
pub proof fn lemma_worktree_is_recorded(
    t: TablesView,
    id: int,
    branch: Seq<char>,
    path: String,
    now: Seq<char>,
)
    requires
        has_room(t, id),
    ensures
        ({
            let (u, r) = scheduler::worktree_settled(t, id, branch, Outcome::Done(path), now);
            &&& r is Ok
            &&& storage::item_of(t, id) matches Some(before) && storage::item_of(u, id) == Some(
                ItemView {
                    row: WorkItemView {
                        worktree_path: Some(path@),
                        updated_at: now,
                        ..before.row
                    },
                    ..before
                },
            )
            &&& others_same(t, u, id)
            &&& u.gates == t.gates
            &&& log_grew(t, u, 1)
            &&& is_of(first_new(t, u), id, "worktree_created"@, now)
            &&& says(first_new(t, u), "branch"@, JsonView::Str(branch))
            &&& says(first_new(t, u), "path"@, JsonView::Str(path@))
        }),
{
    let u = scheduler::worktree_settled(t, id, branch, Outcome::Done(path), now).0;
    let set = storage::field_set(t, id, ItemField::Worktree, path@, now)->Ok_0;
    storage::lemma_field_set_is_local(t, set, id, ItemField::Worktree, path@, now, id);
    let payload = scheduler::worktree_payload(branch, path@);
    lemma_noted(set, id, "worktree_created"@, payload, now);
    assert(storage::item_of(u, id) == storage::item_of(set, id));
    assert forall|other: int| other != id implies #[trigger] storage::item_of(u, other)
        == storage::item_of(t, other) by {
        storage::lemma_field_set_is_local(t, set, id, ItemField::Worktree, path@, now, other);
        assert(storage::item_of(u, other) == storage::item_of(set, other));
    }
    let fields = seq![("branch"@, JsonView::Str(branch)), ("path"@, JsonView::Str(path@))];
    lemma_says(first_new(t, u), fields, 0);
    lemma_says(first_new(t, u), fields, 1);
}

/// A worktree that could not be made parks the item; one that was lost changes
/// nothing. Either way the command fails with the cause.
pub proof fn lemma_failed_worktree_parks(
    t: TablesView,
    id: int,
    branch: Seq<char>,
    o: Outcome<String, WorktreeError>,
    now: Seq<char>,
)
    requires
        has_room(t, id),
        !(o is Done),
    ensures
        ({
            let (u, r) = scheduler::worktree_settled(t, id, branch, o, now);
            &&& o matches Outcome::Lost(m) ==> u == t && r == Err::<(), Seq<char>>(m@)
            &&& o matches Outcome::Failed(e) ==> {
                &&& parked(t, u, id, "worktree_failed"@, now)
                &&& tells(first_new(t, u), "error"@, branch)
                &&& tells(first_new(t, u), "error"@, worktree::worktree_message(e@))
                &&& r matches Err(m) && text::has_text(m, worktree::worktree_message(e@))
            }
        }),
{
    if let Outcome::Failed(e) = o {
        let cause = worktree::worktree_message(e@);
        let head = "creating worktree for branch "@;
        let msg = head + branch + ": "@ + cause;
        let u = scheduler::worktree_settled(t, id, branch, o, now).0;
        lemma_parked(t, id, "worktree_failed"@, scheduler::error_json(msg), now);
        assert(msg =~= head + branch + (": "@ + cause));
        lemma_tells(first_new(t, u), head, branch, ": "@ + cause);
        assert(msg =~= head + branch + ": "@ + cause + Seq::<char>::empty());
        lemma_tells(first_new(t, u), head + branch + ": "@, cause, Seq::empty());
        text::lemma_has_middle(head + branch + ": "@, cause, Seq::empty());
    }
}

/// An agent that was started is on record, in the item and in the log, and the
/// item is `developing`.
pub proof fn lemma_agent_is_recorded(
    t: TablesView,
    id: int,
    backend: Seq<char>,
    session: AgentSessionId,
    now: Seq<char>,
)
    requires
        has_room(t, id),
    ensures
        ({
            let (u, r) = scheduler::agent_settled(t, id, backend, Outcome::Done(session), now);
            &&& r is Ok
            &&& storage::item_of(t, id) matches Some(before) && storage::item_of(u, id) == Some(
                ItemView {
                    row: WorkItemView { state: "developing"@, updated_at: now, ..before.row },
                    agent_session: Some(session.0@),
                },
            )
            &&& others_same(t, u, id)
            &&& u.gates == t.gates
            &&& log_grew(t, u, 2)
            &&& is_of(first_new(t, u), id, "agent_started"@, now)
            &&& says(first_new(t, u), "backend"@, JsonView::Str(backend))
            &&& says(first_new(t, u), "session"@, JsonView::Str(session.0@))
            &&& is_of(u.events.last(), id, "state_changed"@, now)
        }),
{
    let u = scheduler::agent_settled(t, id, backend, Outcome::Done(session), now).0;
    let field = ItemField::AgentSession;
    let set = storage::field_set(t, id, field, session.0@, now)->Ok_0;
    storage::lemma_field_set_is_local(t, set, id, field, session.0@, now, id);
    let payload = scheduler::started_payload(backend, session.0@);
    lemma_noted(set, id, "agent_started"@, payload, now);
    let logged = scheduler::noted(set, id, "agent_started"@, payload, now);
    let to = state::state_text(WorkflowState::Developing);
    storage::lemma_state_update_succeeds(logged, id, to, now);
    storage::lemma_state_change_appends(logged, u, id, to, now);
    storage::lemma_state_change_is_local(logged, u, id, to, now, id);
    assert(storage::item_of(logged, id) == storage::item_of(set, id));
    assert forall|other: int| other != id implies #[trigger] storage::item_of(u, other)
        == storage::item_of(t, other) by {
        storage::lemma_field_set_is_local(t, set, id, field, session.0@, now, other);
        storage::lemma_state_change_is_local(logged, u, id, to, now, other);
        assert(storage::item_of(logged, other) == storage::item_of(set, other));
    }
    assert forall|i: int| 0 <= i < t.events.len() implies #[trigger] u.events[i] == t.events[i] by {
        assert(u.events.drop_last()[i] == logged.events[i]);
    }
    assert(u.events.drop_last()[t.events.len() as int] == logged.events[t.events.len() as int]);
    let fields = seq![
        ("backend"@, JsonView::Str(backend)),
        ("session"@, JsonView::Str(session.0@)),
    ];
    lemma_says(first_new(t, u), fields, 0);
    lemma_says(first_new(t, u), fields, 1);
}

/// An agent that could not be started parks the item; one that was lost changes
/// nothing. Either way the command fails with the cause.
pub proof fn lemma_failed_start_parks(
    t: TablesView,
    id: int,
    backend: Seq<char>,
    o: Outcome<AgentSessionId, AdapterError>,
    now: Seq<char>,
)
    requires
        has_room(t, id),
        !(o is Done),
    ensures
        ({
            let (u, r) = scheduler::agent_settled(t, id, backend, o, now);
            &&& o matches Outcome::Lost(m) ==> u == t && r == Err::<(), Seq<char>>(m@)
            &&& o matches Outcome::Failed(e) ==> {
                &&& parked(t, u, id, "agent_start_failed"@, now)
                &&& tells(first_new(t, u), "error"@, backend)
                &&& tells(first_new(t, u), "error"@, adapters::adapter_message(e@))
                &&& r matches Err(m) && text::has_text(m, adapters::adapter_message(e@))
            }
        }),
{
    if let Outcome::Failed(e) = o {
        let cause = adapters::adapter_message(e@);
        let head = "starting agent backend '"@;
        let msg = head + backend + "': "@ + cause;
        let u = scheduler::agent_settled(t, id, backend, o, now).0;
        lemma_parked(t, id, "agent_start_failed"@, scheduler::error_json(msg), now);
        assert(msg =~= head + backend + ("': "@ + cause));
        lemma_tells(first_new(t, u), head, backend, "': "@ + cause);
        assert(msg =~= head + backend + "': "@ + cause + Seq::<char>::empty());
        lemma_tells(first_new(t, u), head + backend + "': "@, cause, Seq::empty());
        text::lemma_has_middle(head + backend + "': "@, cause, Seq::empty());
    }
}

/// The task that an agent is started with is that of the intake: its item, its
/// ticket, the worktree that was made, and instructions that brief it.
pub proof fn lemma_task_is_that_of_the_intake(i: Intake, repo: config::Repo, worktree: Seq<char>)
    ensures
        ({
            let task = scheduler::task_of(i, repo, worktree);
            &&& task.work_item_id == i.item_id
            &&& task.worktree == worktree
            &&& task.ticket == i.ticket@
            &&& briefs(
                task.instructions,
                i.ticket@,
                i.plan.repo@,
                repo.base@,
                text::texts(repo.check_command@),
                i.branch@,
            )
        }),
{
    lemma_instructions_brief(
        i.ticket@,
        i.plan.repo@,
        repo.base@,
        text::texts(repo.check_command@),
        i.branch@,
    );
}

// ---------------------------------------------------------------------------
// Briefing an agent

/// Whether instructions hold the ticket's key, title, description and address,
/// the repository, the base and the branch, every check command, and the rule
/// against remote actions.
pub open spec fn briefs(
    s: Seq<char>,
    ticket: TicketView,
    repo_name: Seq<char>,
    base: Seq<char>,
    checks: Seq<Seq<char>>,
    branch: Seq<char>,
) -> bool {
    &&& text::opens_with(s, "# "@ + ticket.key.key + ": "@ + ticket.title + "\n\n"@)
    &&& text::has_text(s, "\n\n"@ + text::trimmed(ticket.body) + "\n\n## Context\n\n"@)
    &&& text::has_text(s, "- Ticket: "@ + ticket.url + "\n"@)
    &&& text::has_text(s, "- Repository: "@ + repo_name + " (base branch `"@ + base + "`)\n"@)
    &&& text::has_text(s, "on branch `"@ + branch + "`.\n"@)
    &&& forall|i: int| 0 <= i < checks.len() ==> text::has_text(s, #[trigger] checks[i])
    &&& text::has_text(s, "NEVER push, open pull requests, or perform any other remote action"@)
}

/// The parts of the instructions, in their order.
pub open spec fn brief_heading(ticket: TicketView) -> Seq<char> {
    "# "@ + ticket.key.key + ": "@ + ticket.title
}

pub open spec fn brief_address(ticket: TicketView) -> Seq<char> {
    "- Ticket: "@ + ticket.url + "\n"@
}

pub open spec fn brief_place(repo_name: Seq<char>, base: Seq<char>) -> Seq<char> {
    "- Repository: "@ + repo_name + " (base branch `"@ + base + "`)\n"@
}

pub open spec fn brief_checks(checks: Seq<Seq<char>>) -> Seq<char> {
    if checks.len() == 0 {
        Seq::empty()
    } else {
        "- Local checks run after you finish: `"@ + text::joined(checks, " "@)
            + "`. Make them pass.\n"@
    }
}

pub open spec fn brief_rules() -> Seq<char> {
    "\n## Rules\n\n- Commit your work locally with clear messages.\n- Commit locally; NEVER push, open pull requests, or perform any other remote action — the orchestrator handles everything remote.\n"@
}

proof fn lemma_brief_parts(
    ticket: TicketView,
    repo_name: Seq<char>,
    base: Seq<char>,
    checks: Seq<Seq<char>>,
    branch: Seq<char>,
)
    ensures
        scheduler::instructions_for(ticket, repo_name, base, checks, branch) == brief_heading(
            ticket,
        ) + ("\n\n"@ + text::trimmed(ticket.body) + "\n\n## Context\n\n"@) + brief_address(ticket)
            + brief_place(repo_name, base) + "- You are working in a dedicated git worktree "@ + (
        "on branch `"@ + branch + "`.\n"@) + (brief_checks(checks) + brief_rules()),
{
    reveal_strlit("\n\n");
    reveal_strlit("\n");
    reveal_strlit("\n\n## Context\n\n");
    reveal_strlit("- Ticket: ");
    reveal_strlit("\n\n## Context\n\n- Ticket: ");
    reveal_strlit("- Repository: ");
    reveal_strlit("\n- Repository: ");
    reveal_strlit("`)\n");
    reveal_strlit("on branch `");
    reveal_strlit("- You are working in a dedicated git worktree ");
    reveal_strlit("`)\n- You are working in a dedicated git worktree on branch `");
    assert("\n\n## Context\n\n"@ + "- Ticket: "@ =~= "\n\n## Context\n\n- Ticket: "@);
    assert("\n"@ + "- Repository: "@ =~= "\n- Repository: "@);
    assert("`)\n"@ + "- You are working in a dedicated git worktree "@ + "on branch `"@
        =~= "`)\n- You are working in a dedicated git worktree on branch `"@);
    assert(scheduler::instructions_for(ticket, repo_name, base, checks, branch) =~= brief_heading(
        ticket,
    ) + ("\n\n"@ + text::trimmed(ticket.body) + "\n\n## Context\n\n"@) + brief_address(ticket)
        + brief_place(repo_name, base) + "- You are working in a dedicated git worktree "@ + (
    "on branch `"@ + branch + "`.\n"@) + (brief_checks(checks) + brief_rules()));
}

proof fn lemma_rules_forbid_remote_actions()
    ensures
        text::has_text(
            brief_rules(),
            "NEVER push, open pull requests, or perform any other remote action"@,
        ),
{
    let rule = "NEVER push, open pull requests, or perform any other remote action"@;
    reveal_strlit(
        "\n## Rules\n\n- Commit your work locally with clear messages.\n- Commit locally; NEVER push, open pull requests, or perform any other remote action — the orchestrator handles everything remote.\n",
    );
    reveal_strlit("NEVER push, open pull requests, or perform any other remote action");
    assert(brief_rules().subrange(77, 77 + rule.len() as int) =~= rule);
    assert(text::occurs_at(brief_rules(), rule, 77));
}

proof fn lemma_checks_are_listed(checks: Seq<Seq<char>>, i: int)
    requires
        0 <= i < checks.len(),
    ensures
        text::has_text(brief_checks(checks), checks[i]),
{
    lemma_joined_has(checks, " "@, i);
    let list = text::joined(checks, " "@);
    let opening = "- Local checks run after you finish: `"@;
    text::lemma_has_part(opening, list, checks[i]);
    text::lemma_has_part(opening + list, "`. Make them pass.\n"@, checks[i]);
}

/// What one of seven parts contains, the whole contains.
proof fn lemma_has_one_of(
    a: Seq<char>,
    b: Seq<char>,
    c: Seq<char>,
    d: Seq<char>,
    e: Seq<char>,
    f: Seq<char>,
    g: Seq<char>,
    p: Seq<char>,
)
    requires
        text::has_text(b, p) || text::has_text(c, p) || text::has_text(d, p) || text::has_text(f, p)
            || text::has_text(g, p),
    ensures
        text::has_text(a + b + c + d + e + f + g, p),
{
    if text::has_text(b, p) {
        text::lemma_has_part(a, b, p);
        text::lemma_has_part(a + b, c, p);
        text::lemma_has_part(a + b + c, d, p);
        text::lemma_has_part(a + b + c + d, e, p);
        text::lemma_has_part(a + b + c + d + e, f, p);
        text::lemma_has_part(a + b + c + d + e + f, g, p);
    } else if text::has_text(c, p) {
        text::lemma_has_part(a + b, c, p);
        text::lemma_has_part(a + b + c, d, p);
        text::lemma_has_part(a + b + c + d, e, p);
        text::lemma_has_part(a + b + c + d + e, f, p);
        text::lemma_has_part(a + b + c + d + e + f, g, p);
    } else if text::has_text(d, p) {
        text::lemma_has_part(a + b + c, d, p);
        text::lemma_has_part(a + b + c + d, e, p);
        text::lemma_has_part(a + b + c + d + e, f, p);
        text::lemma_has_part(a + b + c + d + e + f, g, p);
    } else if text::has_text(f, p) {
        text::lemma_has_part(a + b + c + d + e, f, p);
        text::lemma_has_part(a + b + c + d + e + f, g, p);
    } else {
        text::lemma_has_part(a + b + c + d + e + f, g, p);
    }
}

/// Instructions brief the agent, and hold the ticket's own description.
pub proof fn lemma_instructions_brief(
    ticket: TicketView,
    repo_name: Seq<char>,
    base: Seq<char>,
    checks: Seq<Seq<char>>,
    branch: Seq<char>,
)
    ensures
        briefs(
            scheduler::instructions_for(ticket, repo_name, base, checks, branch),
            ticket,
            repo_name,
            base,
            checks,
            branch,
        ),
        text::has_text(
            scheduler::instructions_for(ticket, repo_name, base, checks, branch),
            text::trimmed(ticket.body),
        ),
{
    let s = scheduler::instructions_for(ticket, repo_name, base, checks, branch);
    let body = text::trimmed(ticket.body);
    let a = brief_heading(ticket);
    let b = "\n\n"@ + body + "\n\n## Context\n\n"@;
    let c = brief_address(ticket);
    let d = brief_place(repo_name, base);
    let e = "- You are working in a dedicated git worktree "@;
    let f = "on branch `"@ + branch + "`.\n"@;
    let g = brief_checks(checks) + brief_rules();
    lemma_brief_parts(ticket, repo_name, base, checks, branch);
    let title = "# "@ + ticket.key.key + ": "@ + ticket.title + "\n\n"@;
    assert(s.take(title.len() as int) =~= title);
    text::lemma_has_middle("\n\n"@, body, "\n\n## Context\n\n"@);
    lemma_has_one_of(a, b, c, d, e, f, g, body);
    text::lemma_has_itself(b);
    lemma_has_one_of(a, b, c, d, e, f, g, b);
    text::lemma_has_itself(c);
    lemma_has_one_of(a, b, c, d, e, f, g, c);
    text::lemma_has_itself(d);
    lemma_has_one_of(a, b, c, d, e, f, g, d);
    text::lemma_has_itself(f);
    lemma_has_one_of(a, b, c, d, e, f, g, f);
    assert forall|i: int| 0 <= i < checks.len() implies text::has_text(s, #[trigger] checks[i]) by {
        lemma_checks_are_listed(checks, i);
        text::lemma_has_part(brief_checks(checks), brief_rules(), checks[i]);
        lemma_has_one_of(a, b, c, d, e, f, g, checks[i]);
    }
    let rule = "NEVER push, open pull requests, or perform any other remote action"@;
    lemma_rules_forbid_remote_actions();
    text::lemma_has_part(brief_checks(checks), brief_rules(), rule);
    lemma_has_one_of(a, b, c, d, e, f, g, rule);
}

/// A joined list contains each of its parts.
proof fn lemma_joined_has(parts: Seq<Seq<char>>, sep: Seq<char>, i: int)
    requires
        0 <= i < parts.len(),
    ensures
        text::has_text(text::joined(parts, sep), parts[i]),
    decreases parts.len(),
{
    if parts.len() == 1 {
        text::lemma_has_itself(parts[0]);
    } else {
        let init = parts.drop_last();
        let done = text::joined(init, sep);
        if i < init.len() {
            lemma_joined_has(init, sep, i);
            assert(init[i] == parts[i]);
            text::lemma_has_part(done, sep, parts[i]);
            text::lemma_has_part(done + sep, parts.last(), parts[i]);
        } else {
            text::lemma_has_itself(parts.last());
            text::lemma_has_part(done + sep, parts.last(), parts.last());
        }
    }
}

// ---------------------------------------------------------------------------
// Polling

/// What a filter keeps: the elements that pass, in their order.
proof fn lemma_filtered(s: Seq<WorkItemView>, keep: spec_fn(WorkItemView) -> bool)
    requires
        forall|i: int, j: int| 0 <= i < j < s.len() ==> (#[trigger] s[i]).id < (#[trigger] s[j]).id,
    ensures
        forall|i: int|
            0 <= i < s.len() ==> (s.filter(keep).contains(#[trigger] s[i]) <==> keep(s[i])),
        forall|k: int|
            0 <= k < s.filter(keep).len() ==> s.contains(#[trigger] s.filter(keep)[k]) && keep(
                s.filter(keep)[k],
            ),
        forall|k: int, l: int|
            0 <= k < l < s.filter(keep).len() ==> (#[trigger] s.filter(keep)[k]).id < (
            #[trigger] s.filter(keep)[l]).id,
    decreases s.len(),
{
    reveal(Seq::filter);
    if s.len() > 0 {
        let init = s.drop_last();
        let x = s.last();
        lemma_filtered(init, keep);
        let f = init.filter(keep);
        let g = s.filter(keep);
        assert forall|k: int| 0 <= k < f.len() implies s.contains(#[trigger] f[k]) && f[k].id
            < x.id by {
            let i = choose|i: int| 0 <= i < init.len() && init[i] == f[k];
            assert(s[i] == f[k]);
            assert(s[i].id < s[s.len() - 1].id);
        }
        assert(s.contains(x)) by {
            assert(s[s.len() - 1] == x);
        }
        assert forall|i: int| 0 <= i < s.len() implies (g.contains(#[trigger] s[i]) <==> keep(
            s[i],
        )) by {
            if i < init.len() {
                assert(init[i] == s[i]);
                if f.contains(s[i]) {
                    let k = choose|k: int| 0 <= k < f.len() && f[k] == s[i];
                    assert(g[k] == s[i]);
                }
            } else if keep(x) {
                assert(g[f.len() as int] == x);
            }
        }
    }
}

/// A poll looks at every item that an agent works on and at no other, in the
/// order of their ids.
pub proof fn lemma_poll_sees_the_developing_items(t: TablesView)
    requires
        storage::tables_ok(t),
    ensures
        forall|i: int|
            0 <= i < t.items.len() ==> (scheduler::developing_of(t).contains(
                (#[trigger] t.items[i]).row,
            ) <==> t.items[i].row.state == "developing"@),
        forall|k: int|
            0 <= k < scheduler::developing_of(t).len() ==> (
            #[trigger] scheduler::developing_of(t)[k]).state == "developing"@ && storage::has_item(
                t,
                scheduler::developing_of(t)[k].id,
            ),
        forall|k: int, l: int|
            0 <= k < l < scheduler::developing_of(t).len() ==> (
            #[trigger] scheduler::developing_of(t)[k]).id < (
            #[trigger] scheduler::developing_of(t)[l]).id,
{
    let rows = storage::listed(t);
    let keep = |row: WorkItemView| scheduler::is_developing(row);
    assert forall|i: int, j: int| 0 <= i < j < rows.len() implies (#[trigger] rows[i]).id < (
    #[trigger] rows[j]).id by {
        assert(t.items[i].row.id < t.items[j].row.id);
    }
    lemma_filtered(rows, keep);
    let found = scheduler::developing_of(t);
    assert(found == rows.filter(keep));
    assert forall|i: int| 0 <= i < t.items.len() implies (found.contains(
        (#[trigger] t.items[i]).row,
    ) <==> t.items[i].row.state == "developing"@) by {
        assert(rows[i] == t.items[i].row);
    }
    assert forall|k: int| 0 <= k < found.len() implies (#[trigger] found[k]).state
        == "developing"@ && storage::has_item(t, found[k].id) by {
        let i = choose|i: int| 0 <= i < rows.len() && rows[i] == found[k];
        assert(t.items[i].row.id == found[k].id);
    }
}

/// An item is asked about exactly where none of its gates is pending, it has a
/// session, its repository is configured and the backend has a runner; and
/// then its own session is asked about, at its repository's backend.
pub proof fn lemma_query_asks_the_items_own_agent(
    s: Scheduler,
    t: TablesView,
    row: WorkItemView,
    session: Seq<char>,
    backend: Seq<char>,
)
    ensures
        scheduler::query_of(s, t, row) == Some((session, backend)) <==> {
            &&& storage::pending_of(t, Some(row.id)).len() == 0
            &&& storage::item_of(t, row.id) matches Some(item) && item.agent_session == Some(
                session,
            )
            &&& table::lookup(s.config.repos@, row.repo) matches Some(repo)
                && config::agent_name_of(repo) == backend
            &&& table::lookup(s.runners@, backend) is Some
        },
{
}

/// A transcript is read of the item's own session, at its repository's backend
/// or at `omp` where the repository is gone; without a session or a runner the
/// command fails.
pub proof fn lemma_logs_are_the_items_own(
    s: Scheduler,
    t: TablesView,
    id: int,
    session: Seq<char>,
    backend: Seq<char>,
)
    ensures
        scheduler::log_query(s, t, id) == Ok::<(Seq<char>, Seq<char>), Seq<char>>(
            (session, backend),
        ) <==> {
            &&& storage::item_of(t, id) matches Some(item) && item.agent_session == Some(session)
            &&& table::lookup(s.runners@, backend) is Some
            &&& match table::lookup(s.config.repos@, (storage::item_of(t, id)->0).row.repo) {
                Some(repo) => config::agent_name_of(repo) == backend,
                None => backend == "omp"@,
            }
        },
{
}

/// The last of a sequence: its end, as long as asked for, or all of it.
pub proof fn lemma_last_of<A>(s: Seq<A>, n: nat)
    ensures
        scheduler::last_of(s, n).is_suffix_of(s),
        scheduler::last_of(s, n).len() == if s.len() < n {
            s.len()
        } else {
            n
        },
{
    let r = scheduler::last_of(s, n);
    assert(s.subrange(s.len() - r.len(), s.len() as int) =~= r);
}

// ---------------------------------------------------------------------------
// Verdicts

/// An approval hands out the request's own draft, on the forge of the provider
/// of the item's repository, and changes nothing but the request and the log.
/// One that is refused changes nothing at all.
pub proof fn lemma_approval_hands_out_the_request(
    s: Scheduler,
    t: TablesView,
    gate_id: int,
    now: Seq<char>,
)
    requires
        storage::tables_ok(t),
    ensures
        ({
            let (u, r) = scheduler::approval(s, t, gate_id, now);
            match r {
                Err(_) => u == t,
                Ok((id, provider, draft)) => {
                    &&& storage::gate_of(t, gate_id) matches Some(g) && g.work_item_id == id
                        && g.status == "pending"@ && g.action_kind == "create_pr"@
                        && adapters::draft_of(g.payload) == Ok::<
                        adapters::PrDraftView,
                        Seq<char>,
                    >(draft) && storage::gate_of(u, gate_id) == Some(
                        storage::GateView {
                            status: "approved"@,
                            resolved_at: Some(now),
                            resolved_by: Some("human"@),
                            ..g
                        },
                    )
                    &&& storage::item_of(t, id) matches Some(item) && (table::lookup(
                        s.config.repos@,
                        item.row.repo,
                    ) matches Some(repo) && text::opt_text(repo.provider) == Some(provider))
                    &&& table::lookup(s.providers@, provider) is Some
                    &&& u.items == t.items
                    &&& log_grew(t, u, 1)
                    &&& first_new(t, u).work_item_id == Some(id)
                    &&& first_new(t, u).kind == "gate_"@ + "approved"@
                    &&& first_new(t, u).actor == "human"@
                    &&& first_new(t, u).ts == now
                },
            }
        }),
{
    let (u, r) = scheduler::approval(s, t, gate_id, now);
    if r is Ok {
        let g = storage::gate_of(t, gate_id)->0;
        storage::lemma_resolution_is_recorded(t, u, gate_id, "approved"@, "human"@, None, now);
        gate::lemma_action_round_trip(gate::GatedAction::CreatePr);
        assert(gate::action_text(gate::GatedAction::CreatePr) == "create_pr"@);
        lemma_named_action(g.action_kind);
    }
}

/// An action is named by its text alone.
proof fn lemma_named_action(s: Seq<char>)
    ensures
        gate::action_named(s) == Some(gate::GatedAction::CreatePr) ==> s == "create_pr"@,
{
}

/// A pending request to create a pull request is approved where its payload is
/// a draft, its item is there, the forge of the item's repository is in use,
/// and an event id is left.
pub proof fn lemma_pending_draft_can_be_approved(
    s: Scheduler,
    t: TablesView,
    gate_id: int,
    now: Seq<char>,
)
    requires
        storage::tables_ok(t),
        storage::gate_of(t, gate_id) matches Some(g) && g.status == "pending"@ && g.action_kind
            == "create_pr"@ && adapters::draft_of(g.payload) is Ok && has_room(t, g.work_item_id)
            && (table::lookup(
            s.config.repos@,
            (storage::item_of(t, g.work_item_id)->0).row.repo,
        ) matches Some(repo) && repo.provider is Some && table::lookup(
            s.providers@,
            repo.provider->0@,
        ) is Some),
    ensures
        scheduler::approval(s, t, gate_id, now).1 is Ok,
{
    let g = storage::gate_of(t, gate_id)->0;
    gate::lemma_action_round_trip(gate::GatedAction::CreatePr);
    let resolved = storage::GateView {
        status: "approved"@,
        resolved_at: Some(now),
        resolved_by: Some("human"@),
        ..g
    };
    let mid = storage::with_gate(t, resolved);
    let i = choose|i: int|
        0 <= i < t.items.len() && (#[trigger] t.items[i]).row.id == g.work_item_id;
    assert(mid.items[i].row.id == g.work_item_id);
    assert(storage::has_item(mid, g.work_item_id));
}

/// A rejection is on record with its reason, parks the item, and changes no
/// other work item and no other request. One that is refused
/// changes nothing.
pub proof fn lemma_rejection_parks_the_item(
    t: TablesView,
    gate_id: int,
    reason: Option<Seq<char>>,
    now: Seq<char>,
)
    requires
        storage::tables_ok(t),
        storage::gate_of(t, gate_id) matches Some(g) && g.status == "pending"@ && has_room(
            t,
            g.work_item_id,
        ),
    ensures
        ({
            let (u, r) = scheduler::rejection(t, gate_id, reason, now);
            let g = storage::gate_of(t, gate_id)->0;
            let why = match reason {
                Some(given) => given,
                None => "rejected"@,
            };
            &&& r == Ok::<int, Seq<char>>(g.work_item_id)
            &&& storage::gate_of(u, gate_id) == Some(
                storage::GateView {
                    status: "rejected"@,
                    resolved_at: Some(now),
                    resolved_by: Some("human"@),
                    ..g
                },
            )
            &&& storage::item_of(u, g.work_item_id) matches Some(item) && item.row.state
                == "escalated"@
            &&& others_same(t, u, g.work_item_id)
            &&& log_grew(t, u, 2)
            &&& first_new(t, u).kind == "gate_"@ + "rejected"@
            &&& first_new(t, u).actor == "human"@
            &&& first_new(t, u).work_item_id == Some(g.work_item_id)
            &&& says(first_new(t, u), "reason"@, JsonView::Str(why))
            &&& says(first_new(t, u), "gate_id"@, JsonView::Int(gate_id))
        }),
{
    let (u, r) = scheduler::rejection(t, gate_id, reason, now);
    let g = storage::gate_of(t, gate_id)->0;
    let why = match reason {
        Some(given) => given,
        None => "rejected"@,
    };
    let mid = storage::with_gate(
        t,
        storage::GateView {
            status: "rejected"@,
            resolved_at: Some(now),
            resolved_by: Some("human"@),
            ..g
        },
    );
    let i = choose|i: int|
        0 <= i < t.items.len() && (#[trigger] t.items[i]).row.id == g.work_item_id;
    assert(mid.items[i].row.id == g.work_item_id);
    assert(storage::has_item(mid, g.work_item_id));
    let v = gate::rejected(t, gate_id, "human"@, why, now)->Ok_0;
    storage::lemma_resolution_is_recorded(
        t,
        v,
        gate_id,
        "rejected"@,
        "human"@,
        Some(why),
        now,
    );
    let to = state::state_text(WorkflowState::Escalated);
    assert(v.items[i].row.id == g.work_item_id);
    assert(storage::has_item(v, g.work_item_id));
    storage::lemma_state_update_succeeds(v, g.work_item_id, to, now);
    storage::lemma_state_change_appends(v, u, g.work_item_id, to, now);
    storage::lemma_state_change_is_local(v, u, g.work_item_id, to, now, g.work_item_id);
    storage::lemma_gate_lookup(v, u, gate_id);
    assert forall|other: int| other != g.work_item_id implies #[trigger] storage::item_of(u, other)
        == storage::item_of(t, other) by {
        storage::lemma_state_change_is_local(v, u, g.work_item_id, to, now, other);
        lemma_item_lookup(t, v, other);
    }
    assert forall|k: int| 0 <= k < t.events.len() implies #[trigger] u.events[k] == t.events[k] by {
        assert(u.events.drop_last()[k] == v.events[k]);
    }
    assert(u.events.drop_last()[t.events.len() as int] == v.events[t.events.len() as int]);
    let fields = seq![
        ("action"@, JsonView::Str(g.action_kind)),
        ("gate_id"@, JsonView::Int(gate_id)),
    ].push(("reason"@, JsonView::Str(why)));
    lemma_says(first_new(t, u), fields, 1);
    lemma_says(first_new(t, u), fields, 2);
}

/// The same item table finds the same work item.
proof fn lemma_item_lookup(t: TablesView, u: TablesView, id: int)
    requires
        t.items == u.items,
    ensures
        storage::item_of(t, id) == storage::item_of(u, id),
{
    assert(storage::has_item(t, id) == storage::has_item(u, id)) by {
        if storage::has_item(t, id) {
            let i = choose|i: int| 0 <= i < t.items.len() && (#[trigger] t.items[i]).row.id == id;
            assert(u.items[i].row.id == id);
        }
        if storage::has_item(u, id) {
            let i = choose|i: int| 0 <= i < u.items.len() && (#[trigger] u.items[i]).row.id == id;
            assert(t.items[i].row.id == id);
        }
    }
}

/// A pull request that was created is on record under its repository and
/// number, its item waits as `pr_pending`, and nothing else changes.
pub proof fn lemma_created_pr_is_recorded(
    t: TablesView,
    id: int,
    repo: Seq<char>,
    pr: PrRef,
    now: Seq<char>,
)
    requires
        has_room(t, id),
    ensures
        ({
            let (u, r) = scheduler::creation_settled(t, id, repo, Outcome::Done(pr), now);
            let name = pr.repo@ + "#"@ + text::int_text(pr.number as int);
            &&& r == Ok::<Seq<char>, Seq<char>>(name)
            &&& storage::item_of(t, id) matches Some(before) && storage::item_of(u, id) == Some(
                ItemView {
                    row: WorkItemView {
                        pr_ref: Some(name),
                        state: "pr_pending"@,
                        updated_at: now,
                        ..before.row
                    },
                    ..before
                },
            )
            &&& others_same(t, u, id)
            &&& u.gates == t.gates
            &&& log_grew(t, u, 1)
            &&& is_of(first_new(t, u), id, "state_changed"@, now)
        }),
{
    let (u, r) = scheduler::creation_settled(t, id, repo, Outcome::Done(pr), now);
    let name = pr.repo@ + "#"@ + text::int_text(pr.number as int);
    let set = storage::field_set(t, id, ItemField::PrRef, name, now)->Ok_0;
    storage::lemma_field_set_is_local(t, set, id, ItemField::PrRef, name, now, id);
    let to = state::state_text(WorkflowState::PrPending);
    storage::lemma_state_update_succeeds(set, id, to, now);
    storage::lemma_state_change_appends(set, u, id, to, now);
    storage::lemma_state_change_is_local(set, u, id, to, now, id);
    assert forall|other: int| other != id implies #[trigger] storage::item_of(u, other)
        == storage::item_of(t, other) by {
        storage::lemma_field_set_is_local(t, set, id, ItemField::PrRef, name, now, other);
        storage::lemma_state_change_is_local(set, u, id, to, now, other);
    }
    assert forall|k: int| 0 <= k < t.events.len() implies #[trigger] u.events[k] == t.events[k] by {
        assert(u.events.drop_last()[k] == set.events[k]);
    }
}

/// A pull request that was approved and not created parks its item, and the
/// command fails with the cause: no pull request is on record.
pub proof fn lemma_failed_creation_parks(
    t: TablesView,
    id: int,
    repo: Seq<char>,
    o: Outcome<PrRef, AdapterError>,
    now: Seq<char>,
)
    requires
        has_room(t, id),
        !(o is Done),
    ensures
        ({
            let (u, r) = scheduler::creation_settled(t, id, repo, o, now);
            &&& parked(t, u, id, "pr_create_failed"@, now)
            &&& o matches Outcome::Lost(m) ==> r == Err::<Seq<char>, Seq<char>>(m@) && says(
                first_new(t, u),
                "error"@,
                JsonView::Str(m@),
            )
            &&& o matches Outcome::Failed(e) ==> {
                &&& r matches Err(m) && text::has_text(m, adapters::adapter_message(e@))
                &&& tells(first_new(t, u), "error"@, repo)
                &&& tells(first_new(t, u), "error"@, adapters::adapter_message(e@))
            }
        }),
{
    let u = scheduler::creation_settled(t, id, repo, o, now).0;
    match o {
        Outcome::Lost(m) => {
            lemma_parked(t, id, "pr_create_failed"@, scheduler::error_json(m@), now);
            lemma_says(first_new(t, u), seq![("error"@, JsonView::Str(m@))], 0);
        },
        Outcome::Failed(e) => {
            let cause = adapters::adapter_message(e@);
            let head = "creating PR for "@;
            let msg = head + repo + ": "@ + cause;
            lemma_parked(t, id, "pr_create_failed"@, scheduler::error_json(msg), now);
            assert(msg =~= head + repo + (": "@ + cause));
            lemma_tells(first_new(t, u), head, repo, ": "@ + cause);
            assert(msg =~= head + repo + ": "@ + cause + Seq::<char>::empty());
            lemma_tells(first_new(t, u), head + repo + ": "@, cause, Seq::empty());
            text::lemma_has_middle(head + repo + ": "@, cause, Seq::empty());
        },
        Outcome::Done(_) => {},
    }
}

// ---------------------------------------------------------------------------
// Branches

/// What a piece of a branch template contributes: itself, or the value of its
/// placeholder.
pub open spec fn contribution(
    seg: config::SegmentView,
    ty: Seq<char>,
    key: Seq<char>,
    title: Seq<char>,
) -> Seq<char> {
    match seg {
        config::SegmentView::Lit(lit) => lit,
        config::SegmentView::Var(var) => if var == "type"@ {
            ty
        } else if var == "ticket"@ {
            text::mapped_chars(key, '/', '#', '-')
        } else {
            config::slug_of(title)
        },
    }
}

/// A branch holds every piece of its template, with the type that was asked for
/// (`feature` when none was), the ticket's key and the slug of its title in
/// place of their placeholders.
pub proof fn lemma_branch_holds_its_pieces(
    template: Seq<char>,
    ty: Option<Seq<char>>,
    key: Seq<char>,
    title: Seq<char>,
    i: int,
)
    requires
        config::segments_of(template) matches Some(segs) && 0 <= i < segs.len(),
        scheduler::branch_of(template, ty, key, title) is Ok,
    ensures
        text::has_text(
            scheduler::branch_of(template, ty, key, title)->Ok_0,
            contribution(
                (config::segments_of(template)->0)[i],
                match ty {
                    Some(given) => given,
                    None => "feature"@,
                },
                key,
                title,
            ),
        ),
{
    let segs = config::segments_of(template)->0;
    let given = match ty {
        Some(given) => given,
        None => "feature"@,
    };
    lemma_filled_holds(segs, given, key, title, i);
}

proof fn lemma_filled_holds(
    segs: Seq<config::SegmentView>,
    ty: Seq<char>,
    key: Seq<char>,
    title: Seq<char>,
    i: int,
)
    requires
        0 <= i < segs.len(),
        scheduler::branch_filled(
            segs,
            ty,
            text::mapped_chars(key, '/', '#', '-'),
            config::slug_of(title),
        ) is Ok,
    ensures
        text::has_text(
            scheduler::branch_filled(
                segs,
                ty,
                text::mapped_chars(key, '/', '#', '-'),
                config::slug_of(title),
            )->Ok_0,
            contribution(segs[i], ty, key, title),
        ),
    decreases segs.len(),
{
    let folded = text::mapped_chars(key, '/', '#', '-');
    let slug = config::slug_of(title);
    let init = segs.drop_last();
    let done = scheduler::branch_filled(init, ty, folded, slug)->Ok_0;
    let last = contribution(segs.last(), ty, key, title);
    let whole = scheduler::branch_filled(segs, ty, folded, slug)->Ok_0;
    assert(whole == done + last);
    if i < init.len() {
        assert(init[i] == segs[i]);
        lemma_filled_holds(init, ty, key, title, i);
        text::lemma_has_part(done, last, contribution(segs[i], ty, key, title));
    } else {
        text::lemma_has_itself(last);
        text::lemma_has_part(done, last, last);
    }
}

/// A template that names a placeholder other than the three gives no branch.
pub proof fn lemma_unknown_placeholder_gives_no_branch(
    template: Seq<char>,
    ty: Option<Seq<char>>,
    key: Seq<char>,
    title: Seq<char>,
    i: int,
)
    requires
        config::segments_of(template) matches Some(segs) && 0 <= i < segs.len() && (
        segs[i] matches config::SegmentView::Var(var) && var != "type"@ && var != "ticket"@ && var
            != "slug"@),
    ensures
        scheduler::branch_of(template, ty, key, title) is Err,
{
    let segs = config::segments_of(template)->0;
    lemma_unknown_is_not_filled(
        segs,
        match ty {
            Some(given) => given,
            None => "feature"@,
        },
        text::mapped_chars(key, '/', '#', '-'),
        config::slug_of(title),
        i,
    );
}

proof fn lemma_unknown_is_not_filled(
    segs: Seq<config::SegmentView>,
    ty: Seq<char>,
    ticket: Seq<char>,
    slug: Seq<char>,
    i: int,
)
    requires
        0 <= i < segs.len(),
        segs[i] matches config::SegmentView::Var(var) && var != "type"@ && var != "ticket"@ && var
            != "slug"@,
    ensures
        scheduler::branch_filled(segs, ty, ticket, slug) is Err,
    decreases segs.len(),
{
    if i < segs.len() - 1 {
        assert(segs.drop_last()[i] == segs[i]);
        lemma_unknown_is_not_filled(segs.drop_last(), ty, ticket, slug, i);
    }
}

// ---------------------------------------------------------------------------
// Wiring

/// A provider is in use exactly where it is configured as a GitHub provider
/// with a user and its token was found; the user is the configured one.
pub proof fn lemma_wired_providers(s: Scheduler, usable: Seq<Seq<char>>, name: Seq<char>)
    requires
        s.wired(usable),
    ensures
        table::lookup(s.providers@, name) is Some <==> (table::lookup(
            s.config.providers@,
            name,
        ) matches Some(p) && p.kind@ == "github"@ && p.user is Some && usable.contains(name)),
        table::lookup(s.providers@, name) matches Some(entry) ==> text::opt_text(
            (table::lookup(s.config.providers@, name)->0).user,
        ) == Some(entry.user@),
{
    assert(scheduler::entry_user(s.providers@, name) == scheduler::user_of(
        s.config.providers@,
        usable,
        name,
    ));
}

/// Every repository's worktrees are managed in its own clone, under its own
/// root, with its own hooks.
pub proof fn lemma_wired_worktrees(s: Scheduler, usable: Seq<Seq<char>>, i: int)
    requires
        s.wired(usable),
        0 <= i < s.config.repos@.len(),
    ensures
        ({
            let (name, repo) = s.config.repos@[i];
            let spec = s.worktrees@[i].1@;
            &&& s.worktrees@[i].0 == name
            &&& spec.repo_path == repo.path@
            &&& repo.worktrees_root matches Some(root) ==> spec.worktrees_root == root@
            &&& spec.setup_hook == text::texts(repo.setup_hook@)
            &&& spec.teardown_hook == text::texts(repo.teardown_hook@)
        }),
{
    assert(table::keys_of(s.worktrees@)[i] == table::keys_of(s.config.repos@)[i]);
}

/// A backend that is configured runs its own commands; the name `omp` without a
/// section runs the built-in ones; no other name has a runner.
pub proof fn lemma_wired_runners(s: Scheduler, usable: Seq<Seq<char>>, name: Seq<char>)
    requires
        s.wired(usable),
    ensures
        table::lookup(s.config.agents@, name) matches Some(agent) ==> (
        scheduler::runner_of(s.runners@, name) matches Some(b) && b.start_cmd == text::texts(
            agent.start_cmd@,
        ) && (agent.resume_cmd matches Some(argv) ==> b.resume_cmd == Some(text::texts(argv@)))
            && (agent.resume_cmd is None ==> b.resume_cmd is None)),
        table::lookup(s.config.agents@, name) is None && name != "omp"@ ==> table::lookup(
            s.runners@,
            name,
        ) is None,
{
    assert(scheduler::runner_of(s.runners@, name) is Some ==> table::lookup(s.runners@, name) is Some);
}

/// Whether a plan fits the provider of its name.
pub open spec fn plan_fits(
    plan: scheduler::ProviderPlanView,
    name: Seq<char>,
    p: config::Provider,
) -> bool {
    &&& p.kind@ == "github"@
    &&& text::opt_text(p.user) == Some(plan.user)
    &&& plan.name == name
    &&& plan.secret_key == "providers."@ + name
    &&& p.url matches Some(url) ==> plan.api_url == url@
    &&& p.url is None ==> plan.api_url == "https://api.github.com"@
}

/// Plans are made for the GitHub providers that name a user, and for no other:
/// each fits the provider of its name.
pub proof fn lemma_plans_fit(
    providers: Seq<(Seq<char>, config::Provider)>,
    repos: Seq<(Seq<char>, config::Repo)>,
)
    ensures
        forall|k: int|
            0 <= k < scheduler::plans_of(providers, repos).len() ==> exists|i: int|
                0 <= i < providers.len() && plan_fits(
                    #[trigger] scheduler::plans_of(providers, repos)[k],
                    (#[trigger] providers[i]).0,
                    providers[i].1,
                ),
        forall|i: int|
            0 <= i < providers.len() && (#[trigger] providers[i]).1.kind@ == "github"@
                && providers[i].1.user is Some ==> exists|k: int|
                0 <= k < scheduler::plans_of(providers, repos).len() && plan_fits(
                    #[trigger] scheduler::plans_of(providers, repos)[k],
                    providers[i].0,
                    providers[i].1,
                ),
    decreases providers.len(),
{
    if providers.len() > 0 {
        let init = providers.drop_last();
        lemma_plans_fit(init, repos);
        let before = scheduler::plans_of(init, repos);
        let plans = scheduler::plans_of(providers, repos);
        let n = providers.len() - 1;
        assert(config::DEFAULT_GITHUB_API_URL@ == "https://api.github.com"@);
        assert forall|k: int| 0 <= k < plans.len() implies exists|i: int|
            0 <= i < providers.len() && plan_fits(
                #[trigger] plans[k],
                (#[trigger] providers[i]).0,
                providers[i].1,
            ) by {
            if k < before.len() {
                assert(plans[k] == before[k]);
                let i = choose|i: int|
                    0 <= i < init.len() && plan_fits(
                        before[k],
                        (#[trigger] init[i]).0,
                        init[i].1,
                    );
                assert(providers[i] == init[i]);
            } else {
                assert(plan_fits(plans[k], providers[n].0, providers[n].1));
            }
        }
        assert forall|i: int|
            0 <= i < providers.len() && (#[trigger] providers[i]).1.kind@ == "github"@
                && providers[i].1.user is Some implies exists|k: int|
            0 <= k < plans.len() && plan_fits(
                #[trigger] plans[k],
                providers[i].0,
                providers[i].1,
            ) by {
            if i < n {
                assert(init[i] == providers[i]);
                let k = choose|k: int|
                    0 <= k < before.len() && plan_fits(
                        #[trigger] before[k],
                        init[i].0,
                        init[i].1,
                    );
                assert(plans[k] == before[k]);
            } else {
                assert(plan_fits(plans[before.len() as int], providers[n].0, providers[n].1));
            }
        }
    }
}

/// A provider scans exactly the remote repositories of the repositories that
/// name it.
pub proof fn lemma_remotes_are_wired(
    repos: Seq<(Seq<char>, config::Repo)>,
    provider: Seq<char>,
    remote: Seq<char>,
)
    ensures
        scheduler::remotes_of(repos, provider).contains(remote) <==> exists|i: int|
            0 <= i < repos.len() && text::opt_text((#[trigger] repos[i]).1.provider) == Some(
                provider,
            ) && text::opt_text(repos[i].1.remote_repo) == Some(remote),
    decreases repos.len(),
{
    if repos.len() > 0 {
        let init = repos.drop_last();
        lemma_remotes_are_wired(init, provider, remote);
        let before = scheduler::remotes_of(init, provider);
        let all = scheduler::remotes_of(repos, provider);
        let n = repos.len() - 1;
        if before.contains(remote) {
            let k = choose|k: int| 0 <= k < before.len() && before[k] == remote;
            assert(all[k] == remote);
            let i = choose|i: int|
                0 <= i < init.len() && text::opt_text((#[trigger] init[i]).1.provider) == Some(
                    provider,
                ) && text::opt_text(init[i].1.remote_repo) == Some(remote);
            assert(repos[i] == init[i]);
        }
        if all.contains(remote) && !before.contains(remote) {
            let k = choose|k: int| 0 <= k < all.len() && all[k] == remote;
            if k < before.len() {
                assert(before[k] == remote);
            }
            assert(text::opt_text(repos[n].1.remote_repo) == Some(remote));
        }
        if exists|i: int|
            0 <= i < repos.len() && text::opt_text((#[trigger] repos[i]).1.provider) == Some(
                provider,
            ) && text::opt_text(repos[i].1.remote_repo) == Some(remote) {
            let i = choose|i: int|
                0 <= i < repos.len() && text::opt_text((#[trigger] repos[i]).1.provider) == Some(
                    provider,
                ) && text::opt_text(repos[i].1.remote_repo) == Some(remote);
            if i < n {
                assert(init[i] == repos[i]);
            } else {
                assert(all[before.len() as int] == remote);
            }
        }
    }
}

// ---------------------------------------------------------------------------
// Steps, whatever could be recorded

/// What follows the checks depends on how they ended and on nothing else: the
/// push of the item's branch after a success, and the end in every other case.
pub proof fn lemma_checks_decide_the_step(
    t: TablesView,
    id: int,
    branch: Seq<char>,
    worktree: Seq<char>,
    checks: Seq<Seq<char>>,
    run: Run,
    now: Seq<char>,
)
    ensures
        ({
            let step = scheduler::checks_settled(t, id, branch, worktree, checks, run, now).1;
            &&& succeeded(run) ==> pushes(step, branch, worktree)
            &&& !succeeded(run) ==> step is Stop
        }),
{
}

/// Nothing is fetched after a push that did not succeed.
pub proof fn lemma_push_decides_the_step(
    s: Scheduler,
    t: TablesView,
    row: WorkItemView,
    branch: Seq<char>,
    run: Run,
    now: Seq<char>,
)
    ensures
        !succeeded(run) ==> scheduler::push_settled(s, t, row, branch, run, now).1 is Stop,
        !(scheduler::push_settled(s, t, row, branch, run, now).1 is Push) && !(
        scheduler::push_settled(s, t, row, branch, run, now).1 is Check),
{
}

// ---------------------------------------------------------------------------
// Words

/// A ticket that is tracked already is named with its repository; any other
/// trouble of the storage is told in the storage's own words.
pub proof fn lemma_create_errors(
    cause: Seq<char>,
    e: storage::StorageErrorView,
    ticket: Seq<char>,
    repo: Seq<char>,
)
    ensures
        text::has_text(cause, "UNIQUE constraint"@) ==> text::has_text(
            scheduler::create_message(storage::StorageErrorView::Sqlite(cause), ticket, repo),
            ticket,
        ) && text::has_text(
            scheduler::create_message(storage::StorageErrorView::Sqlite(cause), ticket, repo),
            repo,
        ),
        !text::has_text(cause, "UNIQUE constraint"@) ==> scheduler::create_message(
            storage::StorageErrorView::Sqlite(cause),
            ticket,
            repo,
        ) == storage::storage_message(storage::StorageErrorView::Sqlite(cause)),
        !(e is Sqlite) ==> scheduler::create_message(e, ticket, repo) == storage::storage_message(
            e,
        ),
{
    let tail = " is already tracked for repo '"@ + repo + "'"@;
    let told = "ticket "@ + ticket + " is already tracked for repo '"@ + repo + "'"@;
    assert(told == "ticket "@ + ticket + tail);
    text::lemma_has_middle("ticket "@, ticket, tail);
    text::lemma_has_middle("ticket "@ + ticket + " is already tracked for repo '"@, repo, "'"@);
}

/// A ticket that no provider can be found for is quoted, with the providers
/// that there are.
pub proof fn lemma_unknown_ticket_is_quoted(c: config::Config, ticket: Seq<char>)
    requires
        scheduler::ticket_ref(c, ticket) is Err,
    ensures
        text::has_text(scheduler::ticket_ref(c, ticket)->Err_0, text::debug_text(ticket)),
        text::has_text(
            scheduler::ticket_ref(c, ticket)->Err_0,
            text::joined(table::keys_of(c.providers@), ", "@),
        ),
{
    let quoted = text::debug_text(ticket);
    let names = text::joined(table::keys_of(c.providers@), ", "@);
    let middle = ": expected <provider>:<key> naming a configured provider (configured: "@;
    let told = "ticket ref "@ + quoted + middle + names + ")"@;
    assert(told == "ticket ref "@ + quoted + (middle + names + ")"@));
    text::lemma_has_middle("ticket ref "@, quoted, middle + names + ")"@);
    text::lemma_has_middle("ticket ref "@ + quoted + middle, names, ")"@);
}

/// A provider that cannot be used is named.
pub proof fn lemma_unusable_provider_is_named(provider: Seq<char>)
    ensures
        text::opens_with(
            scheduler::unusable_message(provider),
            "provider '"@ + provider + "' is not usable"@,
        ),
{
    reveal_strlit(
        "' is not usable: it needs kind = \"github\", a `user`, and a token under secret key providers.",
    );
    reveal_strlit("' is not usable");
    let told = scheduler::unusable_message(provider);
    let front = "provider '"@ + provider + "' is not usable"@;
    let next =
        "' is not usable: it needs kind = \"github\", a `user`, and a token under secret key providers."@;
    assert(next.take(15) == "' is not usable"@);
    assert(front.len() == ("provider '"@ + provider).len() + 15);
    assert(told.take(front.len() as int) == front) by {
        assert forall|i: int| 0 <= i < front.len() implies told[i] == front[i] by {
            let n = ("provider '"@ + provider).len() as int;
            if i >= n {
                assert(told[i] == next[i - n]);
                assert(front[i] == "' is not usable"@[i - n]);
                assert(next.take(15)[i - n] == next[i - n]);
            }
        }
    }
}

/// The variable in which a provider's token may stand is the one that the
/// environment is asked for.
pub proof fn lemma_token_variable_is_named(provider: Seq<char>)
    requires
        forall|i: int| 0 <= i < provider.len() ==> #[trigger] provider[i] <= '\u{7f}',
    ensures
        text::has_text(
            scheduler::unusable_message(provider),
            crate::secrets::ENV_PREFIX@ + crate::secrets::env_chars("providers."@ + provider),
        ),
{
    reveal_strlit("YARDMASTER_SECRET_");
    reveal_strlit("YARDMASTER_SECRET_PROVIDERS_");
    reveal_strlit(" (env YARDMASTER_SECRET_PROVIDERS_");
    reveal_strlit(" (env ");
    reveal_strlit("PROVIDERS_");
    let shown = text::mapped_chars(text::uppercased(provider), '.', '-', '_');
    lemma_variable_of(provider);
    let name = crate::secrets::ENV_PREFIX@ + crate::secrets::env_chars("providers."@ + provider);
    assert(" (env YARDMASTER_SECRET_PROVIDERS_"@ == " (env "@ + ("YARDMASTER_SECRET_"@
        + "PROVIDERS_"@));
    assert(name == "YARDMASTER_SECRET_"@ + ("PROVIDERS_"@ + shown));
    let front = "provider '"@ + provider
        + "' is not usable: it needs kind = \"github\", a `user`, and a token under secret key providers."@
        + provider;
    let told = scheduler::unusable_message(provider);
    assert(told == (front + " (env "@) + name + ")"@);
    text::lemma_has_middle(front + " (env "@, name, ")"@);
}

proof fn lemma_variable_of(provider: Seq<char>)
    requires
        forall|i: int| 0 <= i < provider.len() ==> #[trigger] provider[i] <= '\u{7f}',
    ensures
        crate::secrets::env_chars("providers."@ + provider) == "PROVIDERS_"@ + text::mapped_chars(
            text::uppercased(provider),
            '.',
            '-',
            '_',
        ),
        text::uppercased(provider).len() == provider.len(),
    decreases provider.len(),
{
    let key = "providers."@ + provider;
    if provider.len() == 0 {
        assert(key == "providers."@);
        lemma_provider_prefix();
        assert("PROVIDERS_"@ + text::mapped_chars(text::uppercased(provider), '.', '-', '_')
            == "PROVIDERS_"@);
    } else {
        let init = provider.drop_last();
        let c = provider.last();
        assert(provider[provider.len() - 1] == c);
        assert(forall|i: int| 0 <= i < init.len() ==> #[trigger] init[i] == provider[i]);
        lemma_variable_of(init);
        assert(key.drop_last() == "providers."@ + init);
        assert(key.last() == c);
        let up = text::uppercased(provider);
        let before = text::uppercased(init);
        assert(text::upper_chars(c) == seq![text::ascii_upper(c)]);
        assert(up == before.push(text::ascii_upper(c)));
        let mapped = text::mapped_chars(up, '.', '-', '_');
        assert(mapped == text::mapped_chars(before, '.', '-', '_').push(
            if c == '.' || c == '-' {
                '_'
            } else {
                text::ascii_upper(c)
            },
        )) by {
            assert(text::ascii_upper(c) == '.' <==> c == '.');
            assert(text::ascii_upper(c) == '-' <==> c == '-');
        }
    }
}

proof fn lemma_provider_prefix()
    ensures
        crate::secrets::env_chars("providers."@) == "PROVIDERS_"@,
{
    reveal_strlit("providers.");
    reveal_strlit("PROVIDERS_");
    reveal_with_fuel(crate::secrets::env_chars, 11);
    let key = "providers."@;
    crate::laws::secrets::lemma_variable_names(key);
    let name = crate::secrets::env_chars(key);
    assert forall|i: int| 0 <= i < 10 implies name[i] == "PROVIDERS_"@[i] by {
        if i == 9 {
            assert(key[i] == '.');
        } else {
            assert('a' <= key[i] <= 'z');
            assert(name[i] as int == key[i] as int - 32);
        }
    }
    assert(name =~= "PROVIDERS_"@);
}

} // verus!
