//! Workflow state machine and the assignee invariant: nobody touches someone
//! else's ticket.

use crate::adapters::{Ticket, TicketView};
use crate::clock;
use crate::clock::now_rfc3339;
use crate::json;
use crate::json::{Fields, Json, JsonView};
use crate::storage;
use crate::storage::{Storage, StorageError, StorageErrorView, TablesView};
use crate::text;
use crate::text::{debug_quoted, text_eq};
use vstd::prelude::*;
use vstd::string::*;

verus! {

/// Workflow state of a work item.
#[derive(Debug, Clone, Copy, PartialEq, Eq, Hash, Structural)]
pub enum WorkflowState {
    /// Known ticket, no work started.
    Known,
    /// Reserved: agent-assisted ticket refinement.
    Groomed,
    /// Scheduled for an agent.
    Queued,
    /// Agent working in the worktree.
    Developing,
    /// The pull request awaits its gate.
    PrPending,
    /// The pull request exists; watching its checks.
    CiWatch,
    /// Checks are green; waiting on reviews.
    AwaitingReview,
    /// Agent addressing failed checks or review feedback.
    Addressing,
    /// Merge policy satisfied; waiting for the human keypress.
    Mergeable,
    /// The merge gate is in flight.
    Merging,
    /// Merged on the forge; tracker wrap-up pending.
    Merged,
    /// Terminal.
    Done,
    /// Parked by an invariant or the operator; a human unblocks.
    Blocked,
    /// The agent gave up; a human takes over.
    Escalated,
}

/// The text under which a state is stored.
pub open spec fn state_text(s: WorkflowState) -> Seq<char> {
    match s {
        WorkflowState::Known => "tracked"@,
        WorkflowState::Groomed => "groomed"@,
        WorkflowState::Queued => "queued"@,
        WorkflowState::Developing => "developing"@,
        WorkflowState::PrPending => "pr_pending"@,
        WorkflowState::CiWatch => "ci_watch"@,
        WorkflowState::AwaitingReview => "awaiting_review"@,
        WorkflowState::Addressing => "addressing"@,
        WorkflowState::Mergeable => "mergeable"@,
        WorkflowState::Merging => "merging"@,
        WorkflowState::Merged => "merged"@,
        WorkflowState::Done => "done"@,
        WorkflowState::Blocked => "blocked"@,
        WorkflowState::Escalated => "escalated"@,
    }
}

pub open spec fn is_terminal_state(s: WorkflowState) -> bool {
    s is Merged || s is Done
}

/// The state that a text names.
pub open spec fn state_named(text: Seq<char>) -> Option<WorkflowState> {
    if exists|s: WorkflowState| #[trigger] state_text(s) == text {
        Some(choose|s: WorkflowState| #[trigger] state_text(s) == text)
    } else {
        None
    }
}

impl WorkflowState {
    /// Every state, in graph order.
    pub const ALL: [WorkflowState; 14] = [
        WorkflowState::Known,
        WorkflowState::Groomed,
        WorkflowState::Queued,
        WorkflowState::Developing,
        WorkflowState::PrPending,
        WorkflowState::CiWatch,
        WorkflowState::AwaitingReview,
        WorkflowState::Addressing,
        WorkflowState::Mergeable,
        WorkflowState::Merging,
        WorkflowState::Merged,
        WorkflowState::Done,
        WorkflowState::Blocked,
        WorkflowState::Escalated,
    ];

    /// The text under which the state is stored.
    pub fn as_str(self) -> (r: &'static str)
        ensures
            r@ == state_text(self),
    {
        match self {
            WorkflowState::Known => "tracked",
            WorkflowState::Groomed => "groomed",
            WorkflowState::Queued => "queued",
            WorkflowState::Developing => "developing",
            WorkflowState::PrPending => "pr_pending",
            WorkflowState::CiWatch => "ci_watch",
            WorkflowState::AwaitingReview => "awaiting_review",
            WorkflowState::Addressing => "addressing",
            WorkflowState::Mergeable => "mergeable",
            WorkflowState::Merging => "merging",
            WorkflowState::Merged => "merged",
            WorkflowState::Done => "done",
            WorkflowState::Blocked => "blocked",
            WorkflowState::Escalated => "escalated",
        }
    }

    /// Terminal states never fall to `Blocked` or `Escalated`; the only move
    /// left to `Merged` is the tracker wrap-up to `Done`.
    pub fn is_terminal(self) -> (r: bool)
        ensures
            r == is_terminal_state(self),
    {
        matches!(self, WorkflowState::Merged | WorkflowState::Done)
    }

    /// The state that a text names.
    pub fn parse(s: &str) -> (r: Result<WorkflowState, ParseWorkflowStateError>)
        ensures
            match (r, state_named(s@)) {
                (Ok(state), Some(named)) => state == named && state_text(state) == s@,
                (Err(e), None) => e@ == s@,
                _ => false,
            },
    {
        proof {
            lemma_state_texts_differ();
        }
        let all = WorkflowState::ALL;
        let mut i: usize = 0;
        while i < 14
            invariant
                i <= 14,
                all@ == WorkflowState::ALL@,
                forall|k: int| 0 <= k < i ==> state_text(#[trigger] all@[k]) != s@,
                forall|a: WorkflowState, b: WorkflowState|
                    #[trigger] state_text(a) == #[trigger] state_text(b) ==> a == b,
            decreases 14 - i,
        {
            if text_eq(all[i].as_str(), s) {
                assert(state_text(all@[i as int]) == s@);
                return Ok(all[i]);
            }
            i = i + 1;
        }
        proof {
            assert forall|x: WorkflowState| #[trigger] state_text(x) != s@ by {
                let k = state_rank(x);
                assert(all@[k] == x);
            }
        }
        Err(ParseWorkflowStateError(s.to_owned()))
    }
}

spec fn state_rank(s: WorkflowState) -> int {
    match s {
        WorkflowState::Known => 0,
        WorkflowState::Groomed => 1,
        WorkflowState::Queued => 2,
        WorkflowState::Developing => 3,
        WorkflowState::PrPending => 4,
        WorkflowState::CiWatch => 5,
        WorkflowState::AwaitingReview => 6,
        WorkflowState::Addressing => 7,
        WorkflowState::Mergeable => 8,
        WorkflowState::Merging => 9,
        WorkflowState::Merged => 10,
        WorkflowState::Done => 11,
        WorkflowState::Blocked => 12,
        WorkflowState::Escalated => 13,
    }
}

/// No two states are stored under the same text.
pub proof fn lemma_state_texts_differ()
    ensures
        forall|a: WorkflowState, b: WorkflowState|
            #[trigger] state_text(a) == #[trigger] state_text(b) ==> a == b,
{
    reveal_strlit("tracked");
    reveal_strlit("groomed");
    reveal_strlit("queued");
    reveal_strlit("developing");
    reveal_strlit("pr_pending");
    reveal_strlit("ci_watch");
    reveal_strlit("awaiting_review");
    reveal_strlit("addressing");
    reveal_strlit("mergeable");
    reveal_strlit("merging");
    reveal_strlit("merged");
    reveal_strlit("done");
    reveal_strlit("blocked");
    reveal_strlit("escalated");
    assert forall|a: WorkflowState, b: WorkflowState|
        #[trigger] state_text(a) == #[trigger] state_text(b) implies a == b by {
        let (x, y) = (state_text(a), state_text(b));
        assert(x.len() == y.len());
        assert(x[0] == y[0]);
        assert(x[2] == y[2]);
    }
}

/// Storing a state and reading it back gives the state.
pub proof fn lemma_state_round_trip(s: WorkflowState)
    ensures
        state_named(state_text(s)) == Some(s),
{
    lemma_state_texts_differ();
}

#[derive(Debug, PartialEq, Eq)]
pub struct ParseWorkflowStateError(String);

impl View for ParseWorkflowStateError {
    type V = Seq<char>;

    closed spec fn view(&self) -> Seq<char> {
        self.0@
    }
}

impl Clone for ParseWorkflowStateError {
    fn clone(&self) -> (r: ParseWorkflowStateError)
        ensures
            r@ == self@,
    {
        ParseWorkflowStateError(self.0.clone())
    }
}

impl ParseWorkflowStateError {
    pub fn message(&self) -> (r: String)
        ensures
            r@ == "unknown workflow state: "@ + text::debug_text(self@),
    {
        "unknown workflow state: ".to_owned().concat(debug_quoted(self.0.as_str()).as_str())
    }
}

impl std::str::FromStr for WorkflowState {
    type Err = ParseWorkflowStateError;

    fn from_str(s: &str) -> (r: Result<WorkflowState, ParseWorkflowStateError>)
        ensures
            match (r, state_named(s@)) {
                (Ok(state), Some(named)) => state == named && state_text(state) == s@,
                (Err(e), None) => e@ == s@,
                _ => false,
            },
    {
        WorkflowState::parse(s)
    }
}

// ---------------------------------------------------------------------------
// Transitions

/// The states that an item in a given state may move to.
pub open spec fn edges(from: WorkflowState) -> Seq<WorkflowState> {
    match from {
        WorkflowState::Known => seq![
            WorkflowState::Groomed,
            WorkflowState::Queued,
            WorkflowState::Blocked,
            WorkflowState::Escalated,
        ],
        WorkflowState::Groomed => seq![
            WorkflowState::Queued,
            WorkflowState::Blocked,
            WorkflowState::Escalated,
        ],
        WorkflowState::Queued => seq![
            WorkflowState::Developing,
            WorkflowState::Blocked,
            WorkflowState::Escalated,
        ],
        WorkflowState::Developing => seq![
            WorkflowState::PrPending,
            WorkflowState::Blocked,
            WorkflowState::Escalated,
        ],
        WorkflowState::PrPending => seq![
            WorkflowState::CiWatch,
            WorkflowState::Addressing,
            WorkflowState::Blocked,
            WorkflowState::Escalated,
        ],
        WorkflowState::CiWatch => seq![
            WorkflowState::AwaitingReview,
            WorkflowState::Addressing,
            WorkflowState::Blocked,
            WorkflowState::Escalated,
        ],
        WorkflowState::AwaitingReview => seq![
            WorkflowState::Mergeable,
            WorkflowState::Addressing,
            WorkflowState::Blocked,
            WorkflowState::Escalated,
        ],
        WorkflowState::Addressing => seq![
            WorkflowState::Developing,
            WorkflowState::Mergeable,
            WorkflowState::Blocked,
            WorkflowState::Escalated,
        ],
        WorkflowState::Mergeable => seq![
            WorkflowState::Merging,
            WorkflowState::Blocked,
            WorkflowState::Escalated,
        ],
        WorkflowState::Merging => seq![
            WorkflowState::Merged,
            WorkflowState::Blocked,
            WorkflowState::Escalated,
        ],
        WorkflowState::Merged => seq![WorkflowState::Done],
        WorkflowState::Done => seq![],
        WorkflowState::Blocked => seq![
            WorkflowState::Known,
            WorkflowState::Groomed,
            WorkflowState::Queued,
            WorkflowState::Developing,
            WorkflowState::PrPending,
            WorkflowState::CiWatch,
            WorkflowState::AwaitingReview,
            WorkflowState::Addressing,
            WorkflowState::Mergeable,
            WorkflowState::Merging,
            WorkflowState::Escalated,
        ],
        WorkflowState::Escalated => seq![
            WorkflowState::Known,
            WorkflowState::Groomed,
            WorkflowState::Queued,
            WorkflowState::Developing,
            WorkflowState::PrPending,
            WorkflowState::CiWatch,
            WorkflowState::AwaitingReview,
            WorkflowState::Addressing,
            WorkflowState::Mergeable,
            WorkflowState::Merging,
            WorkflowState::Blocked,
        ],
    }
}

/// The workflow graph. Every non-terminal state may fall to `Blocked` or
/// `Escalated`; a parked item resumes at any non-terminal state.
pub fn legal_transitions(from: WorkflowState) -> (r: &'static [WorkflowState])
    ensures
        r@ == edges(from),
{
    match from {
        WorkflowState::Known => &[
            WorkflowState::Groomed,
            WorkflowState::Queued,
            WorkflowState::Blocked,
            WorkflowState::Escalated,
        ],
        WorkflowState::Groomed => &[
            WorkflowState::Queued,
            WorkflowState::Blocked,
            WorkflowState::Escalated,
        ],
        WorkflowState::Queued => &[
            WorkflowState::Developing,
            WorkflowState::Blocked,
            WorkflowState::Escalated,
        ],
        WorkflowState::Developing => &[
            WorkflowState::PrPending,
            WorkflowState::Blocked,
            WorkflowState::Escalated,
        ],
        WorkflowState::PrPending => &[
            WorkflowState::CiWatch,
            WorkflowState::Addressing,
            WorkflowState::Blocked,
            WorkflowState::Escalated,
        ],
        WorkflowState::CiWatch => &[
            WorkflowState::AwaitingReview,
            WorkflowState::Addressing,
            WorkflowState::Blocked,
            WorkflowState::Escalated,
        ],
        WorkflowState::AwaitingReview => &[
            WorkflowState::Mergeable,
            WorkflowState::Addressing,
            WorkflowState::Blocked,
            WorkflowState::Escalated,
        ],
        WorkflowState::Addressing => &[
            WorkflowState::Developing,
            WorkflowState::Mergeable,
            WorkflowState::Blocked,
            WorkflowState::Escalated,
        ],
        WorkflowState::Mergeable => &[
            WorkflowState::Merging,
            WorkflowState::Blocked,
            WorkflowState::Escalated,
        ],
        WorkflowState::Merging => &[
            WorkflowState::Merged,
            WorkflowState::Blocked,
            WorkflowState::Escalated,
        ],
        WorkflowState::Merged => &[WorkflowState::Done],
        WorkflowState::Done => &[],
        WorkflowState::Blocked => &[
            WorkflowState::Known,
            WorkflowState::Groomed,
            WorkflowState::Queued,
            WorkflowState::Developing,
            WorkflowState::PrPending,
            WorkflowState::CiWatch,
            WorkflowState::AwaitingReview,
            WorkflowState::Addressing,
            WorkflowState::Mergeable,
            WorkflowState::Merging,
            WorkflowState::Escalated,
        ],
        WorkflowState::Escalated => &[
            WorkflowState::Known,
            WorkflowState::Groomed,
            WorkflowState::Queued,
            WorkflowState::Developing,
            WorkflowState::PrPending,
            WorkflowState::CiWatch,
            WorkflowState::AwaitingReview,
            WorkflowState::Addressing,
            WorkflowState::Mergeable,
            WorkflowState::Merging,
            WorkflowState::Blocked,
        ],
    }
}

/// Whether the workflow graph has the edge.
pub fn can_transition(from: WorkflowState, to: WorkflowState) -> (r: bool)
    ensures
        r == edges(from).contains(to),
{
    let targets = legal_transitions(from);
    let mut i: usize = 0;
    while i < targets.len()
        invariant
            i <= targets@.len(),
            targets@ == edges(from),
            forall|k: int| 0 <= k < i ==> #[trigger] targets@[k] != to,
        decreases targets@.len() - i,
    {
        if targets[i] == to {
            assert(edges(from)[i as int] == to);
            return true;
        }
        i = i + 1;
    }
    false
}

/// No state leads to itself.
pub proof fn lemma_no_self_loops(s: WorkflowState)
    ensures
        !edges(s).contains(s),
{
}

/// Every non-terminal state falls to `Blocked` and to `Escalated`, but for
/// itself; a terminal state to neither.
pub proof fn lemma_parking(s: WorkflowState)
    ensures
        edges(s).contains(WorkflowState::Blocked) == (!is_terminal_state(s) && !(s is Blocked)),
        edges(s).contains(WorkflowState::Escalated) == (!is_terminal_state(s) && !(
        s is Escalated)),
{
    let e = edges(s);
    let n = e.len() as int;
    if !is_terminal_state(s) && !(s is Blocked) && !(s is Escalated) {
        assert(e[n - 2] == WorkflowState::Blocked);
        assert(e[n - 1] == WorkflowState::Escalated);
    } else if s is Blocked {
        assert(e[n - 1] == WorkflowState::Escalated);
    } else if s is Escalated {
        assert(e[n - 1] == WorkflowState::Blocked);
    }
}

/// A parked item resumes at every non-terminal state but its own.
pub proof fn lemma_resume(parked: WorkflowState, to: WorkflowState)
    requires
        parked is Blocked || parked is Escalated,
    ensures
        edges(parked).contains(to) == (!is_terminal_state(to) && to != parked),
{
    let e = edges(parked);
    assert(e[0] == WorkflowState::Known && e[1] == WorkflowState::Groomed && e[2]
        == WorkflowState::Queued && e[3] == WorkflowState::Developing && e[4]
        == WorkflowState::PrPending && e[5] == WorkflowState::CiWatch && e[6]
        == WorkflowState::AwaitingReview && e[7] == WorkflowState::Addressing && e[8]
        == WorkflowState::Mergeable && e[9] == WorkflowState::Merging);
    if parked is Blocked {
        assert(e[10] == WorkflowState::Escalated);
    } else {
        assert(e[10] == WorkflowState::Blocked);
    }
}

/// An item is merged out of `Merging` and no other state, done out of `Merged`
/// and no other state, and nothing follows `Done`.
pub proof fn lemma_merge_path(from: WorkflowState)
    ensures
        edges(from).contains(WorkflowState::Merged) == (from is Merging),
        edges(from).contains(WorkflowState::Done) == (from is Merged),
        edges(WorkflowState::Done).len() == 0,
{
    assert(edges(WorkflowState::Merging)[0] == WorkflowState::Merged);
    assert(edges(WorkflowState::Merged)[0] == WorkflowState::Done);
}

// ---------------------------------------------------------------------------
// Assignee

/// Why a ticket must not be touched by `me`, unless it is assigned to `me`.
pub open spec fn violation(ticket: TicketView, me: Seq<char>) -> Option<Seq<char>> {
    match ticket.assignee {
        Some(assignee) => if assignee == me {
            None
        } else {
            Some(
                "ticket "@ + ticket.key.key + " is assigned to "@ + text::debug_text(assignee) + ", not "@
                    + text::debug_text(me),
            )
        },
        None => Some("ticket "@ + ticket.key.key + " is unassigned"@),
    }
}

/// `None` when the ticket is assigned to `me`; otherwise a human-readable
/// reason.
pub fn assignee_violation(ticket: &Ticket, me: &str) -> (r: Option<String>)
    ensures
        match (r, violation(ticket@, me@)) {
            (Some(reason), Some(v)) => reason@ == v,
            (None, None) => true,
            _ => false,
        },
{
    match &ticket.assignee {
        Some(assignee) => if text_eq(assignee.as_str(), me) {
            None
        } else {
            Some(
                "ticket ".to_owned().concat(ticket.key.key.as_str()).concat(
                    " is assigned to ",
                ).concat(debug_quoted(assignee.as_str()).as_str()).concat(", not ").concat(
                    debug_quoted(me).as_str(),
                ),
            )
        },
        None => Some(
            "ticket ".to_owned().concat(ticket.key.key.as_str()).concat(" is unassigned"),
        ),
    }
}

/// A ticket is free to touch exactly when it is assigned to `me`.
pub proof fn lemma_only_my_tickets(ticket: TicketView, me: Seq<char>)
    ensures
        violation(ticket, me) is None <==> ticket.assignee == Some(me),
{
}

/// Payload of an `assignee_violation` event.
pub open spec fn violation_payload(
    ticket: TicketView,
    me: Seq<char>,
    reason: Seq<char>,
) -> JsonView {
    JsonView::Object(
        seq![
            ("assignee"@, json::nullable(ticket.assignee)),
            ("me"@, JsonView::Str(me)),
            ("provider"@, JsonView::Str(ticket.key.provider)),
            ("reason"@, JsonView::Str(reason)),
            ("ticket"@, JsonView::Str(ticket.key.key)),
        ],
    )
}

/// Whether an item in a stored state is past blocking: blocked already, or
/// terminal. A text that names no state is not.
pub open spec fn is_settled(state: Seq<char>) -> bool {
    match state_named(state) {
        Some(s) => s is Blocked || is_terminal_state(s),
        None => false,
    }
}

/// Enforcing the assignee invariant: the tables afterwards, and whether the
/// item was blocked by it.
pub open spec fn enforced(
    t: TablesView,
    id: int,
    ticket: TicketView,
    me: Seq<char>,
    now: Seq<char>,
) -> (TablesView, Result<bool, StorageErrorView>) {
    match violation(ticket, me) {
        None => (t, Ok(false)),
        Some(reason) => match storage::item_of(t, id) {
            None => (t, Err(StorageErrorView::WorkItemNotFound(id))),
            Some(item) => if is_settled(item.row.state) {
                (t, Ok(false))
            } else {
                match storage::appended(
                    t,
                    Some(id),
                    "system"@,
                    "assignee_violation"@,
                    violation_payload(ticket, me, reason),
                    now,
                ) {
                    Err(e) => (t, Err(e)),
                    Ok((logged, event)) => match storage::state_updated(
                        logged,
                        id,
                        state_text(WorkflowState::Blocked),
                        now,
                    ) {
                        Err(e) => (logged, Err(e)),
                        Ok(u) => (u, Ok(true)),
                    },
                }
            },
        },
    }
}

pub open spec fn bool_result(
    r: Result<bool, StorageError>,
    outcome: Result<bool, StorageErrorView>,
) -> bool {
    match (r, outcome) {
        (Ok(a), Ok(b)) => a == b,
        (Err(e), Err(v)) => e@ == v,
        _ => false,
    }
}

/// Enforces the assignee invariant on one work item at a given time. Meant to
/// run on every sync: an item that is blocked already, or terminal, is left
/// alone. A fresh violation appends an `assignee_violation` event and moves
/// the item to `Blocked`; the result says whether this call blocked it.
pub fn enforce_assignee_at(
    storage: &mut Storage,
    work_item_id: i64,
    ticket: &Ticket,
    me: &str,
    now: &str,
) -> (r: Result<bool, StorageError>)
    requires
        old(storage).wf(),
    ensures
        final(storage).wf(),
        ({
            let (t, outcome) = enforced(
                old(storage)@.tables,
                work_item_id as int,
                ticket@,
                me@,
                now@,
            );
            final(storage)@.tables == t && bool_result(r, outcome)
        }),
        storage::follows(old(storage)@, final(storage)@),
{
    let ghost before = storage@;
    proof {
        storage::lemma_follows_same(before);
    }
    let reason = match assignee_violation(ticket, me) {
        None => return Ok(false),
        Some(reason) => reason,
    };
    let item = match storage.get_work_item(work_item_id) {
        Ok(item) => item,
        Err(e) => return Err(e),
    };
    if let Ok(state) = WorkflowState::parse(item.state.as_str()) {
        if state == WorkflowState::Blocked || state.is_terminal() {
            return Ok(false);
        }
    }
    let fields = Fields::new().with("assignee", Json::opt_text(&ticket.assignee)).with(
        "me",
        Json::text(me),
    ).with("provider", Json::text(ticket.key.provider.as_str())).with(
        "reason",
        Json::text(reason.as_str()),
    ).with("ticket", Json::text(ticket.key.key.as_str()));
    assert(fields@ == seq![
        ("assignee"@, json::nullable(ticket@.assignee)),
        ("me"@, JsonView::Str(me@)),
        ("provider"@, JsonView::Str(ticket@.key.provider)),
        ("reason"@, JsonView::Str(reason@)),
        ("ticket"@, JsonView::Str(ticket@.key.key)),
    ]);
    let payload = fields.done();
    match storage.append_event_at(
        Some(work_item_id),
        "system",
        "assignee_violation",
        &payload,
        now,
    ) {
        Ok(_) => {},
        Err(e) => return Err(e),
    }
    let ghost logged = storage@;
    match storage.update_work_item_state_at(work_item_id, WorkflowState::Blocked.as_str(), now) {
        Ok(_) => {},
        Err(e) => return Err(e),
    }
    proof {
        storage::lemma_follows_chain(before, logged, storage@);
    }
    Ok(true)
}

/// [`enforce_assignee_at`] now.
pub fn enforce_assignee(
    storage: &mut Storage,
    work_item_id: i64,
    ticket: &Ticket,
    me: &str,
) -> (r: Result<bool, StorageError>)
    requires
        old(storage).wf(),
    ensures
        final(storage).wf(),
        exists|now: Seq<char>|
            clock::is_stamp(now) && {
                let (t, outcome) = #[trigger] enforced(
                    old(storage)@.tables,
                    work_item_id as int,
                    ticket@,
                    me@,
                    now,
                );
                final(storage)@.tables == t && bool_result(r, outcome)
            },
        storage::follows(old(storage)@, final(storage)@),
{
    let now = now_rfc3339();
    enforce_assignee_at(storage, work_item_id, ticket, me, now.as_str())
}

/// Enforcement is idempotent: once it has blocked an item, running it again on
/// the same violation changes nothing.
pub proof fn lemma_enforce_is_idempotent(
    t: TablesView,
    id: int,
    ticket: TicketView,
    me: Seq<char>,
    now: Seq<char>,
    later: Seq<char>,
)
    requires
        crate::storage::tables_ok(t),
        enforced(t, id, ticket, me, now).1 is Ok,
    ensures
        ({
            let u = enforced(t, id, ticket, me, now).0;
            enforced(u, id, ticket, me, later) == (u, Ok::<bool, StorageErrorView>(false))
        }),
{
    lemma_state_round_trip(WorkflowState::Blocked);
    let (u, outcome) = enforced(t, id, ticket, me, now);
    if outcome == Ok::<bool, StorageErrorView>(true) {
        let logged = storage::appended(
            t,
            Some(id),
            "system"@,
            "assignee_violation"@,
            violation_payload(ticket, me, violation(ticket, me)->0),
            now,
        )->Ok_0.0;
        crate::storage::lemma_appended_ok(
            t,
            Some(id),
            "system"@,
            "assignee_violation"@,
            violation_payload(ticket, me, violation(ticket, me)->0),
            now,
        );
        crate::storage::lemma_state_change_is_local(
            logged,
            u,
            id,
            state_text(WorkflowState::Blocked),
            now,
            id,
        );
    }
}

/// A ticket assigned to `me` leaves everything as it was.
pub proof fn lemma_my_ticket_is_left_alone(
    t: TablesView,
    id: int,
    ticket: TicketView,
    me: Seq<char>,
    now: Seq<char>,
)
    requires
        ticket.assignee == Some(me),
    ensures
        enforced(t, id, ticket, me, now) == (t, Ok::<bool, StorageErrorView>(false)),
{
}

} // verus!
