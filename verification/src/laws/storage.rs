//! What the operations on the stored tables record, keep and refuse.

use crate::json::JsonView;
use crate::laws::json::{has_key, holds, lemma_holds};
use crate::storage;
use crate::storage::{
    EventView, GateView, ItemField, ItemView, StorageErrorView, TablesView,
};
use crate::text;
use vstd::prelude::*;
use vstd::string::*;

verus! {

// ---------------------------------------------------------------------------
// The log

/// Whether the later log is the earlier one with this event behind it, under an
/// id that no event had before.
pub open spec fn logs(t: TablesView, u: TablesView, e: EventView) -> bool {
    &&& u.events == t.events.push(e)
    &&& u.last_event == e.id
    &&& e.id > t.last_event
    &&& forall|i: int| 0 <= i < t.events.len() ==> (#[trigger] t.events[i]).id < e.id
}

/// An event is appended as it was given, under a new id. It is refused exactly
/// where ids have run out or where it names an item that is not there.
pub proof fn lemma_event_is_recorded(
    t: TablesView,
    work_item_id: Option<int>,
    actor: Seq<char>,
    kind: Seq<char>,
    payload: JsonView,
    now: Seq<char>,
)
    requires
        storage::tables_ok(t),
    ensures
        match storage::appended(t, work_item_id, actor, kind, payload, now) {
            Ok((u, id)) => logs(t, u, u.events.last()) && u.events.last().id == id
                && u.events.last().work_item_id == work_item_id && u.events.last().actor == actor
                && u.events.last().kind == kind && u.events.last().payload == payload
                && u.events.last().ts == now && u.items == t.items && u.gates == t.gates,
            Err(e) => e is Sqlite && (t.last_event >= i64::MAX || (t.events.len() > 0
                && t.events.last().id >= i64::MAX) || (work_item_id is Some && !storage::has_item(
                t,
                work_item_id->0,
            ))),
        },
        work_item_id is Some && !storage::has_item(t, work_item_id->0) ==> storage::appended(
            t,
            work_item_id,
            actor,
            kind,
            payload,
            now,
        ) is Err,
{
}

/// The first event of all has the id 1.
pub proof fn lemma_first_event(t: TablesView)
    requires
        t.events.len() == 0,
        t.last_event == 0,
    ensures
        storage::next_event_id(t) == 1,
{
}

// ---------------------------------------------------------------------------
// Work items

/// A new work item tracks its ticket in the state that was asked for, under a
/// new id; nothing else is known of it yet.
pub proof fn lemma_new_item(
    t: TablesView,
    u: TablesView,
    provider: Seq<char>,
    ticket_key: Seq<char>,
    repo: Seq<char>,
    state: Seq<char>,
    now: Seq<char>,
    id: int,
)
    requires
        storage::tables_ok(t),
        storage::item_created(t, provider, ticket_key, repo, state, now) == Ok::<
            (TablesView, int),
            StorageErrorView,
        >((u, id)),
    ensures
        u.items.drop_last() == t.items,
        u.items.len() == t.items.len() + 1,
        ({
            let item = u.items.last();
            &&& item.row.id == id
            &&& item.row.provider == provider
            &&& item.row.ticket_key == ticket_key
            &&& item.row.repo == repo
            &&& item.row.state == state
            &&& item.row.created_at == now
            &&& item.row.updated_at == now
            &&& item.row.branch is None
            &&& item.row.worktree_path is None
            &&& item.row.pr_ref is None
            &&& item.agent_session is None
        }),
        forall|i: int| 0 <= i < t.items.len() ==> (#[trigger] t.items[i]).row.id < id,
        t.items.len() == 0 ==> id == 1,
        u.events == t.events,
        u.gates == t.gates,
{
    assert(u.items.drop_last() == t.items);
}

/// A ticket that is tracked in a repository is not tracked there again, and one
/// that is not can be tracked while ids last.
pub proof fn lemma_tickets_are_tracked_once(
    t: TablesView,
    provider: Seq<char>,
    ticket_key: Seq<char>,
    repo: Seq<char>,
    state: Seq<char>,
    now: Seq<char>,
)
    requires
        t.items.len() == 0 || t.items.last().row.id < i64::MAX,
    ensures
        storage::item_created(t, provider, ticket_key, repo, state, now) is Err <==> exists|i: int|
            0 <= i < t.items.len() && (#[trigger] t.items[i]).row.provider == provider
                && t.items[i].row.ticket_key == ticket_key && t.items[i].row.repo == repo,
{
    if storage::is_tracked(t, provider, ticket_key, repo) {
        let i = choose|i: int|
            0 <= i < t.items.len() && storage::same_identity(
                #[trigger] t.items[i],
                provider,
                ticket_key,
                repo,
            );
        assert(t.items[i].row.provider == provider);
    }
    if exists|i: int|
        0 <= i < t.items.len() && (#[trigger] t.items[i]).row.provider == provider
            && t.items[i].row.ticket_key == ticket_key && t.items[i].row.repo == repo {
        let i = choose|i: int|
            0 <= i < t.items.len() && (#[trigger] t.items[i]).row.provider == provider
                && t.items[i].row.ticket_key == ticket_key && t.items[i].row.repo == repo;
        assert(storage::same_identity(t.items[i], provider, ticket_key, repo));
    }
}

/// A change of state is told by the system, with the old state and the new one.
pub proof fn lemma_state_change_is_told(
    t: TablesView,
    u: TablesView,
    id: int,
    state: Seq<char>,
    now: Seq<char>,
)
    requires
        storage::tables_ok(t),
        storage::state_updated(t, id, state, now) == Ok::<TablesView, StorageErrorView>(u),
    ensures
        logs(t, u, u.events.last()),
        u.events.last().work_item_id == Some(id),
        u.events.last().actor == "system"@,
        u.events.last().kind == "state_changed"@,
        u.events.last().ts == now,
        storage::item_of(t, id) matches Some(before) && holds(
            u.events.last().payload,
            "old"@,
            JsonView::Str(before.row.state),
        ),
        storage::item_of(u, id) matches Some(after) && after.row.state == state
            && after.row.updated_at == now && holds(
            u.events.last().payload,
            "new"@,
            JsonView::Str(after.row.state),
        ),
{
    storage::lemma_state_change_is_local(t, u, id, state, now, id);
    let before = storage::item_of(t, id)->0;
    let fields = storage::state_payload(before.row.state, state)->Object_0;
    lemma_holds(fields, 0);
    lemma_holds(fields, 1);
}

/// Whether two items differ at most in when they were updated and in one
/// column.
pub open spec fn same_but(a: ItemView, b: ItemView, field: ItemField) -> bool {
    &&& a.row.id == b.row.id && a.row.provider == b.row.provider && a.row.ticket_key
        == b.row.ticket_key && a.row.repo == b.row.repo && a.row.state == b.row.state
        && a.row.created_at == b.row.created_at
    &&& !(field is Branch) ==> a.row.branch == b.row.branch
    &&& !(field is Worktree) ==> a.row.worktree_path == b.row.worktree_path
    &&& !(field is PrRef) ==> a.row.pr_ref == b.row.pr_ref
    &&& !(field is AgentSession) ==> a.agent_session == b.agent_session
}

/// A column that was set holds its value; the other columns keep theirs.
pub proof fn lemma_column_is_set(
    t: TablesView,
    u: TablesView,
    id: int,
    field: ItemField,
    value: Seq<char>,
    now: Seq<char>,
)
    requires
        storage::tables_ok(t),
        storage::field_set(t, id, field, value, now) == Ok::<TablesView, StorageErrorView>(u),
    ensures
        storage::item_of(t, id) matches Some(before) && storage::item_of(u, id) matches Some(after)
            && same_but(before, after, field) && after.row.updated_at == now && (field is Branch
            ==> after.row.branch == Some(value)) && (field is Worktree ==> after.row.worktree_path
            == Some(value)) && (field is PrRef ==> after.row.pr_ref == Some(value)) && (
        field is AgentSession ==> after.agent_session == Some(value)),
{
    storage::lemma_field_set_is_local(t, u, id, field, value, now, id);
}

/// A column of an item that is not there is not set, and the error names the
/// item.
pub proof fn lemma_missing_item_is_named(
    t: TablesView,
    id: int,
    field: ItemField,
    state: Seq<char>,
    value: Seq<char>,
    now: Seq<char>,
)
    requires
        !storage::has_item(t, id),
    ensures
        storage::field_set(t, id, field, value, now) == Err::<TablesView, StorageErrorView>(
            StorageErrorView::WorkItemNotFound(id),
        ),
        storage::state_updated(t, id, state, now) == Err::<TablesView, StorageErrorView>(
            StorageErrorView::WorkItemNotFound(id),
        ),
{
}

/// Every stored item is listed, in its place.
pub proof fn lemma_items_are_listed(t: TablesView)
    ensures
        storage::listed(t).len() == t.items.len(),
        forall|i: int| 0 <= i < t.items.len() ==> #[trigger] storage::listed(t)[i] == t.items[i].row,
{
}

// ---------------------------------------------------------------------------
// Gate requests

/// A gate request holds the action and the payload that were asked for and
/// waits for a verdict; the log tells the action and the request's id.
pub proof fn lemma_request_is_recorded(
    t: TablesView,
    u: TablesView,
    work_item_id: int,
    action: Seq<char>,
    payload: JsonView,
    now: Seq<char>,
    id: int,
)
    requires
        storage::tables_ok(t),
        storage::gate_created(t, work_item_id, action, payload, now) == Ok::<
            (TablesView, int),
            StorageErrorView,
        >((u, id)),
    ensures
        u.gates.drop_last() == t.gates,
        u.gates.len() == t.gates.len() + 1,
        ({
            let gate = u.gates.last();
            &&& gate.id == id
            &&& gate.work_item_id == work_item_id
            &&& gate.action_kind == action
            &&& gate.payload == payload
            &&& gate.status == "pending"@
            &&& gate.created_at == now
            &&& gate.resolved_at is None
            &&& gate.resolved_by is None
        }),
        forall|i: int| 0 <= i < t.gates.len() ==> (#[trigger] t.gates[i]).id < id,
        u.items == t.items,
        logs(t, u, u.events.last()),
        u.events.last().work_item_id == Some(work_item_id),
        u.events.last().actor == "system"@,
        u.events.last().kind == "gate_requested"@,
        u.events.last().ts == now,
        holds(u.events.last().payload, "action"@, JsonView::Str(action)),
        holds(u.events.last().payload, "gate_id"@, JsonView::Int(id)),
{
    assert(u.gates.drop_last() == t.gates);
    let fields = storage::gate_payload(id, action, None)->Object_0;
    lemma_holds(fields, 0);
    lemma_holds(fields, 1);
}

/// A verdict is told by whoever gave it, with the request's action and id, and
/// with the reason where there is one. Other requests wait on.
pub proof fn lemma_verdict_is_told(
    t: TablesView,
    u: TablesView,
    id: int,
    verdict: Seq<char>,
    actor: Seq<char>,
    reason: Option<Seq<char>>,
    now: Seq<char>,
)
    requires
        storage::tables_ok(t),
        storage::gate_resolved(t, id, verdict, actor, reason, now) == Ok::<
            TablesView,
            StorageErrorView,
        >(u),
    ensures
        logs(t, u, u.events.last()),
        u.events.last().actor == actor,
        u.events.last().kind == "gate_"@ + verdict,
        u.events.last().ts == now,
        storage::gate_of(t, id) matches Some(g) && u.events.last().work_item_id == Some(
            g.work_item_id,
        ) && holds(u.events.last().payload, "action"@, JsonView::Str(g.action_kind)),
        holds(u.events.last().payload, "gate_id"@, JsonView::Int(id)),
        reason matches Some(why) ==> holds(
            u.events.last().payload,
            "reason"@,
            JsonView::Str(why),
        ),
        reason is None ==> !has_key(u.events.last().payload, "reason"@),
        u.gates.len() == t.gates.len(),
        forall|i: int|
            0 <= i < t.gates.len() && (#[trigger] t.gates[i]).id != id ==> u.gates[i] == t.gates[i],
{
    let g = storage::gate_of(t, id)->0;
    let payload = storage::gate_payload(id, g.action_kind, reason);
    let fields = payload->Object_0;
    lemma_holds(fields, 0);
    lemma_holds(fields, 1);
    storage::lemma_resolution_is_recorded(t, u, id, verdict, actor, reason, now);
    if reason is Some {
        lemma_holds(fields, 2);
    } else {
        reveal_strlit("reason");
        reveal_strlit("action");
        reveal_strlit("gate_id");
        assert("reason"@[0] == 'r' && "action"@[0] == 'a' && "gate_id"@[0] == 'g');
        if has_key(payload, "reason"@) {
            let value = choose|value: JsonView| #[trigger] holds(payload, "reason"@, value);
            let k = choose|k: int| 0 <= k < fields.len() && fields[k] == ("reason"@, value);
            assert(k == 0 || k == 1);
        }
    }
    assert(storage::gate_of(u, id)->0.id == id);
}

/// A request that is not there is named, and one that has its verdict is
/// refused with it.
pub proof fn lemma_refused_verdicts(
    t: TablesView,
    id: int,
    verdict: Seq<char>,
    actor: Seq<char>,
    reason: Option<Seq<char>>,
    now: Seq<char>,
)
    ensures
        !storage::has_gate(t, id) ==> storage::gate_resolved(t, id, verdict, actor, reason, now)
            == Err::<TablesView, StorageErrorView>(StorageErrorView::GateRequestNotFound(id)),
        storage::gate_of(t, id) matches Some(g) ==> (g.status != "pending"@
            ==> storage::gate_resolved(t, id, verdict, actor, reason, now) == Err::<
            TablesView,
            StorageErrorView,
        >(StorageErrorView::GateRequestNotPending { id, status: g.status })),
{
}

// ---------------------------------------------------------------------------
// Reading

/// Filtering keeps exactly what it is asked to keep, in its order.
pub proof fn lemma_filter_keeps<A>(s: Seq<A>, keep: spec_fn(A) -> bool)
    ensures
        forall|i: int|
            0 <= i < s.filter(keep).len() ==> keep(#[trigger] s.filter(keep)[i]) && s.contains(
                s.filter(keep)[i],
            ),
        forall|k: int|
            0 <= k < s.len() && keep(#[trigger] s[k]) ==> s.filter(keep).contains(s[k]),
    decreases s.len(),
{
    reveal(Seq::filter);
    if s.len() > 0 {
        let init = s.drop_last();
        lemma_filter_keeps(init, keep);
        let before = init.filter(keep);
        let all = s.filter(keep);
        assert forall|i: int| 0 <= i < all.len() implies keep(#[trigger] all[i]) && s.contains(
            all[i],
        ) by {
            if i < before.len() {
                assert(all[i] == before[i]);
                let k = choose|k: int| 0 <= k < init.len() && init[k] == before[i];
                assert(s[k] == all[i]);
            } else {
                assert(s[s.len() - 1] == all[i]);
            }
        }
        assert forall|k: int| 0 <= k < s.len() && keep(#[trigger] s[k]) implies all.contains(
            s[k],
        ) by {
            if k < init.len() {
                assert(init[k] == s[k]);
                let i = choose|i: int| 0 <= i < before.len() && before[i] == s[k];
                assert(all[i] == s[k]);
            } else {
                assert(all[before.len() as int] == s[k]);
            }
        }
    }
}

/// The log of an item holds every event that names it, and none that does not;
/// the whole log holds them all.
pub proof fn lemma_log_of_an_item(t: TablesView, id: int)
    ensures
        storage::events_of(t, None) == t.events,
        forall|i: int|
            0 <= i < storage::events_of(t, Some(id)).len() ==> (#[trigger] storage::events_of(
                t,
                Some(id),
            )[i]).work_item_id == Some(id) && t.events.contains(storage::events_of(t, Some(id))[i]),
        forall|k: int|
            0 <= k < t.events.len() && (#[trigger] t.events[k]).work_item_id == Some(id)
                ==> storage::events_of(t, Some(id)).contains(t.events[k]),
{
    lemma_filter_keeps(t.events, |e: EventView| e.work_item_id == Some(id));
}

/// The pending requests are those without a verdict, of one item where one is
/// named.
pub proof fn lemma_pending_requests(t: TablesView, work_item_id: Option<int>)
    ensures
        forall|i: int|
            0 <= i < storage::pending_of(t, work_item_id).len() ==> (#[trigger] storage::pending_of(
                t,
                work_item_id,
            )[i]).status == "pending"@ && (work_item_id matches Some(id) ==> storage::pending_of(
                t,
                work_item_id,
            )[i].work_item_id == id) && t.gates.contains(storage::pending_of(t, work_item_id)[i]),
        forall|k: int|
            0 <= k < t.gates.len() && (#[trigger] t.gates[k]).status == "pending"@ && (
            work_item_id matches Some(id) ==> t.gates[k].work_item_id == id) ==> storage::pending_of(
                t,
                work_item_id,
            ).contains(t.gates[k]),
{
    lemma_filter_keeps(t.gates, |g: GateView| storage::is_pending(g, work_item_id));
}

// ---------------------------------------------------------------------------
// Migrations and messages

/// Every migration leads one version on, the last of them to the version of the
/// library; a database that is newer is refused with both versions.
pub proof fn lemma_migrations_lead_on(version: int)
    ensures
        version > 2 ==> (storage::missing_migrations(version) matches Err(
            StorageErrorView::UnsupportedVersion { found, supported },
        ) && found == version && supported == 2),
        0 <= version <= 2 ==> (storage::missing_migrations(version) matches Ok(steps)
            && steps.len() == 2 - version && (forall|i: int|
            0 <= i < steps.len() ==> (#[trigger] steps[i]).0 == version + i + 1)),
        version < 0 ==> (storage::missing_migrations(version) matches Ok(steps) && steps.len() == 0),
        storage::missing_migrations(1)->Ok_0 == storage::missing_migrations(0)->Ok_0.skip(1),
{
    assert(storage::missing_migrations(0)->Ok_0.skip(1) == storage::missing_migrations(1)->Ok_0);
}

/// Messages name what they are about.
pub proof fn lemma_messages_name_their_subject(id: int, status: Seq<char>, said: Seq<char>)
    ensures
        text::has_text(
            storage::storage_message(StorageErrorView::WorkItemNotFound(id)),
            "work item "@ + text::int_text(id),
        ),
        text::has_text(
            storage::storage_message(StorageErrorView::GateRequestNotFound(id)),
            "gate request "@ + text::int_text(id),
        ),
        text::has_text(
            storage::storage_message(StorageErrorView::GateRequestNotPending { id, status }),
            "gate request "@ + text::int_text(id),
        ),
        text::has_text(
            storage::storage_message(StorageErrorView::GateRequestNotPending { id, status }),
            status,
        ),
        text::has_text(storage::storage_message(StorageErrorView::Sqlite(said)), said),
{
    let n = text::int_text(id);
    text::lemma_has_middle(Seq::empty(), "work item "@ + n, " not found"@);
    assert(Seq::<char>::empty() + ("work item "@ + n) + " not found"@ == "work item "@ + n
        + " not found"@);
    text::lemma_has_middle(Seq::empty(), "gate request "@ + n, " not found"@);
    assert(Seq::<char>::empty() + ("gate request "@ + n) + " not found"@ == "gate request "@ + n
        + " not found"@);
    let tail = " is not pending (status: "@ + status + "); double-resolve rejected"@;
    let whole = storage::storage_message(StorageErrorView::GateRequestNotPending { id, status });
    assert(Seq::<char>::empty() + ("gate request "@ + n) + tail == whole);
    text::lemma_has_middle(Seq::empty(), "gate request "@ + n, tail);
    text::lemma_has_middle(
        "gate request "@ + n + " is not pending (status: "@,
        status,
        "); double-resolve rejected"@,
    );
    text::lemma_has_middle("sqlite error: "@, said, Seq::empty());
    assert("sqlite error: "@ + said + Seq::<char>::empty() == "sqlite error: "@ + said);
}

/// A row that finds no id is refused as one too many, a row that names a missing
/// item as a broken reference, and a ticket tracked twice as a duplicate.
pub proof fn lemma_refusals_say_why(
    t: TablesView,
    id: int,
    kind: Seq<char>,
    payload: JsonView,
    now: Seq<char>,
    provider: Seq<char>,
    key: Seq<char>,
    repo: Seq<char>,
)
    ensures
        t.last_event >= i64::MAX ==> storage::appended(t, None, "system"@, kind, payload, now)
            == Err::<(TablesView, int), StorageErrorView>(
            StorageErrorView::Sqlite("database or disk is full"@),
        ),
        storage::next_event_id(t) <= i64::MAX && !storage::has_item(t, id) ==> storage::appended(
            t,
            Some(id),
            "system"@,
            kind,
            payload,
            now,
        ) == Err::<(TablesView, int), StorageErrorView>(
            StorageErrorView::Sqlite("FOREIGN KEY constraint failed"@),
        ),
        storage::next_item_id(t) <= i64::MAX && storage::is_tracked(t, provider, key, repo)
            ==> storage::item_created(t, provider, key, repo, kind, now) == Err::<
            (TablesView, int),
            StorageErrorView,
        >(storage::unique_error()),
{
}

/// A database that is too new is told with both versions, and a directory that
/// cannot be made with its path and the cause.
pub proof fn lemma_more_messages(
    found: int,
    supported: int,
    path: Seq<char>,
    source: Seq<char>,
)
    ensures
        text::has_text(
            storage::storage_message(StorageErrorView::UnsupportedVersion { found, supported }),
            text::int_text(found),
        ),
        text::closes_with(
            storage::storage_message(StorageErrorView::UnsupportedVersion { found, supported }),
            text::int_text(supported),
        ),
        text::has_text(
            storage::storage_message(StorageErrorView::CreateDir { path, source }),
            path,
        ),
        text::closes_with(
            storage::storage_message(StorageErrorView::CreateDir { path, source }),
            source,
        ),
{
    let (f, s) = (text::int_text(found), text::int_text(supported));
    let front = "database schema version "@ + f + " is newer than supported version "@;
    assert((front + s).skip(front.len() as int) == s);
    let tail = " is newer than supported version "@ + s;
    text::lemma_has_middle("database schema version "@, f, tail);
    assert("database schema version "@ + f + tail == front + s);
    let head = "failed to create state directory "@ + path + ": "@;
    assert((head + source).skip(head.len() as int) == source);
    text::lemma_has_middle("failed to create state directory "@, path, ": "@ + source);
    assert("failed to create state directory "@ + path + (": "@ + source) == head + source);
}

} // verus!
