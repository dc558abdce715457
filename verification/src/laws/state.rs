//! Where a work item may go, and when it stops.

use crate::adapters::TicketView;
use crate::json::JsonView;
use crate::laws::json::{holds, lemma_holds};
use crate::laws::scheduler::{first_new, has_room, is_of, log_grew, others_same};
use crate::state;
use crate::state::WorkflowState;
use crate::storage;
use crate::storage::{ItemView, StorageErrorView, TablesView, WorkItemView};
use crate::text;
use vstd::prelude::*;
use vstd::string::*;

verus! {

/// Whether a state is one in which work goes on.
pub open spec fn is_active(s: WorkflowState) -> bool {
    !(s is Blocked) && !(s is Escalated)
}

/// Work goes on along one path: taken up, developed, proposed, checked,
/// reviewed, merged; feedback leads back to the developer. No other step is
/// legal between active states.
pub proof fn lemma_work_goes_forward(from: WorkflowState, to: WorkflowState)
    requires
        is_active(from),
        is_active(to),
    ensures
        state::edges(from).contains(to) <==> match from {
            WorkflowState::Known => to is Groomed || to is Queued,
            WorkflowState::Groomed => to is Queued,
            WorkflowState::Queued => to is Developing,
            WorkflowState::Developing => to is PrPending,
            WorkflowState::PrPending => to is CiWatch || to is Addressing,
            WorkflowState::CiWatch => to is AwaitingReview || to is Addressing,
            WorkflowState::AwaitingReview => to is Mergeable || to is Addressing,
            WorkflowState::Addressing => to is Developing || to is Mergeable,
            WorkflowState::Mergeable => to is Merging,
            WorkflowState::Merging => to is Merged,
            WorkflowState::Merged => to is Done,
            _ => false,
        },
{
    let e = state::edges(from);
    if e.contains(to) {
        let i = choose|i: int| 0 <= i < e.len() && e[i] == to;
        assert(i == 0 || i == 1 || i == 2 || i == 3);
    }
    assert(e.len() > 0 ==> e.contains(e[0]));
    assert(e.len() > 1 ==> e.contains(e[1]));
}

/// A work item's state is stored under the name that its users know.
pub proof fn lemma_state_names()
    ensures
        state::state_text(WorkflowState::Known) == "tracked"@,
        state::state_text(WorkflowState::Queued) == "queued"@,
        state::state_text(WorkflowState::Developing) == "developing"@,
        state::state_text(WorkflowState::PrPending) == "pr_pending"@,
        state::state_text(WorkflowState::CiWatch) == "ci_watch"@,
        state::state_text(WorkflowState::Blocked) == "blocked"@,
        state::state_text(WorkflowState::Escalated) == "escalated"@,
        state::state_text(WorkflowState::Merged) == "merged"@,
        state::state_text(WorkflowState::Done) == "done"@,
{
}

/// Whatever stands in the way of a ticket names it; an assignee who is someone
/// else is named with the one who was expected.
pub proof fn lemma_violation_says_why(ticket: TicketView, me: Seq<char>)
    requires
        ticket.assignee != Some(me),
    ensures
        state::violation(ticket, me) matches Some(why) && text::has_text(why, ticket.key.key) && (
        ticket.assignee matches Some(other) ==> text::has_text(why, text::debug_text(other))
            && text::has_text(why, text::debug_text(me))),
{
    let key = ticket.key.key;
    if let Some(other) = ticket.assignee {
        let o = text::debug_text(other);
        let m = text::debug_text(me);
        let why = "ticket "@ + key + " is assigned to "@ + o + ", not "@ + m;
        let tail = " is assigned to "@ + o + ", not "@ + m;
        text::lemma_has_middle("ticket "@, key, tail);
        assert(why == "ticket "@ + key + tail);
        text::lemma_has_middle("ticket "@ + key + " is assigned to "@, o, ", not "@ + m);
        assert(why == "ticket "@ + key + " is assigned to "@ + o + (", not "@ + m));
        text::lemma_has_middle("ticket "@ + key + " is assigned to "@ + o + ", not "@, m, Seq::empty());
        assert(why + Seq::<char>::empty() == why);
    } else {
        text::lemma_has_middle("ticket "@, key, " is unassigned"@);
    }
}

/// Whether an item was blocked over its assignee: it is `blocked` and otherwise
/// as it was, the log first says why, and nothing else changed.
pub open spec fn blocked(
    t: TablesView,
    u: TablesView,
    id: int,
    ticket: TicketView,
    me: Seq<char>,
    now: Seq<char>,
) -> bool {
    &&& storage::item_of(t, id) matches Some(before) && storage::item_of(u, id) == Some(
        ItemView {
            row: WorkItemView { state: "blocked"@, updated_at: now, ..before.row },
            ..before
        },
    )
    &&& others_same(t, u, id)
    &&& u.gates == t.gates
    &&& log_grew(t, u, 2)
    &&& is_of(first_new(t, u), id, "assignee_violation"@, now)
    &&& holds(first_new(t, u).payload, "ticket"@, JsonView::Str(ticket.key.key))
    &&& holds(first_new(t, u).payload, "provider"@, JsonView::Str(ticket.key.provider))
    &&& holds(first_new(t, u).payload, "me"@, JsonView::Str(me))
    &&& ticket.assignee matches Some(other) ==> holds(
        first_new(t, u).payload,
        "assignee"@,
        JsonView::Str(other),
    )
    &&& ticket.assignee is None ==> holds(first_new(t, u).payload, "assignee"@, JsonView::Null)
    &&& is_of(u.events.last(), id, "state_changed"@, now)
    &&& holds(u.events.last().payload, "new"@, JsonView::Str("blocked"@))
}

/// An item whose ticket is someone else's, or nobody's, is blocked while work on
/// it goes on.
pub proof fn lemma_foreign_ticket_is_blocked(
    t: TablesView,
    id: int,
    ticket: TicketView,
    me: Seq<char>,
    now: Seq<char>,
)
    requires
        has_room(t, id),
        ticket.assignee != Some(me),
        storage::item_of(t, id) matches Some(item) && item.row.state != "blocked"@
            && item.row.state != "merged"@ && item.row.state != "done"@,
    ensures
        state::enforced(t, id, ticket, me, now).1 == Ok::<bool, StorageErrorView>(true),
        blocked(t, state::enforced(t, id, ticket, me, now).0, id, ticket, me, now),
{
    let item = storage::item_of(t, id)->0;
    assert(!state::is_settled(item.row.state)) by {
        if let Some(s) = state::state_named(item.row.state) {
            assert(state::state_text(s) == item.row.state);
        }
    }
    let why = state::violation(ticket, me)->0;
    let payload = state::violation_payload(ticket, me, why);
    let fields = payload->Object_0;
    lemma_holds(fields, 0);
    lemma_holds(fields, 1);
    lemma_holds(fields, 2);
    lemma_holds(fields, 4);
    let (logged, event) = storage::appended(
        t,
        Some(id),
        "system"@,
        "assignee_violation"@,
        payload,
        now,
    )->Ok_0;
    storage::lemma_appended_ok(t, Some(id), "system"@, "assignee_violation"@, payload, now);
    assert(storage::item_of(logged, id) == storage::item_of(t, id));
    storage::lemma_state_update_succeeds(logged, id, "blocked"@, now);
    let u = storage::state_updated(logged, id, "blocked"@, now)->Ok_0;
    assert(state::enforced(t, id, ticket, me, now).0 == u);
    storage::lemma_state_change_appends(logged, u, id, "blocked"@, now);
    assert forall|other: int| other != id implies #[trigger] storage::item_of(u, other)
        == storage::item_of(t, other) by {
        storage::lemma_state_change_is_local(logged, u, id, "blocked"@, now, other);
        assert(storage::item_of(logged, other) == storage::item_of(t, other));
    }
    storage::lemma_state_change_is_local(logged, u, id, "blocked"@, now, id);
    assert forall|i: int| 0 <= i < t.events.len() implies #[trigger] u.events[i] == t.events[i] by {
        assert(u.events.drop_last()[i] == logged.events[i]);
    }
    assert(first_new(t, u) == logged.events.last()) by {
        assert(u.events.drop_last()[t.events.len() as int] == logged.events.last());
    }
    let moved = storage::state_payload(item.row.state, "blocked"@)->Object_0;
    lemma_holds(moved, 0);
}

/// My own ticket is left alone, and so is an item that is blocked or done with.
pub proof fn lemma_no_violation_changes_nothing(
    t: TablesView,
    id: int,
    ticket: TicketView,
    me: Seq<char>,
    now: Seq<char>,
)
    requires
        ticket.assignee == Some(me) || (storage::item_of(t, id) matches Some(item) && (
        item.row.state == "blocked"@ || item.row.state == "merged"@ || item.row.state == "done"@)),
    ensures
        state::enforced(t, id, ticket, me, now) == (t, Ok::<bool, StorageErrorView>(false)),
{
    if ticket.assignee != Some(me) {
        state::lemma_state_round_trip(WorkflowState::Blocked);
        state::lemma_state_round_trip(WorkflowState::Merged);
        state::lemma_state_round_trip(WorkflowState::Done);
    }
}

} // verus!
