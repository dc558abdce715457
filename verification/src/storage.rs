//! Work-item projection, append-only event log and gate queue.
//!
//! The tables live in memory and every change to them is also recorded in a
//! journal of row changes. Saving the journal in one database transaction
//! brings the database to the same tables, so an operation is durable as a
//! whole or not at all. No operation changes or removes an event.

use crate::clock;
use crate::clock::now_rfc3339;
use crate::json::{Fields, Json, JsonView};
use crate::text;
use crate::text::{copy_opt, i64_string, text_eq, u64_string};
use vstd::prelude::*;
use vstd::string::*;

verus! {

// ---------------------------------------------------------------------------
// Rows

/// One row of the `work_items` table.
#[derive(Debug, PartialEq, Eq)]
pub struct WorkItemRow {
    pub id: i64,
    pub provider: String,
    pub ticket_key: String,
    pub repo: String,
    pub state: String,
    pub branch: Option<String>,
    pub worktree_path: Option<String>,
    pub pr_ref: Option<String>,
    pub created_at: String,
    pub updated_at: String,
}

/// One row of the `events` table.
#[derive(Debug, PartialEq, Eq)]
pub struct EventRow {
    pub id: i64,
    pub work_item_id: Option<i64>,
    pub ts: String,
    pub actor: String,
    pub kind: String,
    pub payload: Json,
}

/// One row of the `gate_requests` table.
#[derive(Debug, PartialEq, Eq)]
pub struct GateRequestRow {
    pub id: i64,
    pub work_item_id: i64,
    pub action_kind: String,
    pub payload: Json,
    pub status: String,
    pub created_at: String,
    pub resolved_at: Option<String>,
    pub resolved_by: Option<String>,
}

/// A work item with the agent session that drives it, `None` while no agent
/// was started.
#[derive(Debug, PartialEq, Eq)]
pub struct ItemRecord {
    pub row: WorkItemRow,
    pub agent_session: Option<String>,
}

#[verifier::ext_equal]
pub struct WorkItemView {
    pub id: int,
    pub provider: Seq<char>,
    pub ticket_key: Seq<char>,
    pub repo: Seq<char>,
    pub state: Seq<char>,
    pub branch: Option<Seq<char>>,
    pub worktree_path: Option<Seq<char>>,
    pub pr_ref: Option<Seq<char>>,
    pub created_at: Seq<char>,
    pub updated_at: Seq<char>,
}

#[verifier::ext_equal]
pub struct EventView {
    pub id: int,
    pub work_item_id: Option<int>,
    pub ts: Seq<char>,
    pub actor: Seq<char>,
    pub kind: Seq<char>,
    pub payload: JsonView,
}

#[verifier::ext_equal]
pub struct GateView {
    pub id: int,
    pub work_item_id: int,
    pub action_kind: Seq<char>,
    pub payload: JsonView,
    pub status: Seq<char>,
    pub created_at: Seq<char>,
    pub resolved_at: Option<Seq<char>>,
    pub resolved_by: Option<Seq<char>>,
}

#[verifier::ext_equal]
pub struct ItemView {
    pub row: WorkItemView,
    pub agent_session: Option<Seq<char>>,
}

pub open spec fn opt_id(id: Option<i64>) -> Option<int> {
    match id {
        Some(i) => Some(i as int),
        None => None,
    }
}

impl View for WorkItemRow {
    type V = WorkItemView;

    open spec fn view(&self) -> WorkItemView {
        WorkItemView {
            id: self.id as int,
            provider: self.provider@,
            ticket_key: self.ticket_key@,
            repo: self.repo@,
            state: self.state@,
            branch: text::opt_text(self.branch),
            worktree_path: text::opt_text(self.worktree_path),
            pr_ref: text::opt_text(self.pr_ref),
            created_at: self.created_at@,
            updated_at: self.updated_at@,
        }
    }
}

impl View for EventRow {
    type V = EventView;

    open spec fn view(&self) -> EventView {
        EventView {
            id: self.id as int,
            work_item_id: opt_id(self.work_item_id),
            ts: self.ts@,
            actor: self.actor@,
            kind: self.kind@,
            payload: self.payload@,
        }
    }
}

impl View for GateRequestRow {
    type V = GateView;

    open spec fn view(&self) -> GateView {
        GateView {
            id: self.id as int,
            work_item_id: self.work_item_id as int,
            action_kind: self.action_kind@,
            payload: self.payload@,
            status: self.status@,
            created_at: self.created_at@,
            resolved_at: text::opt_text(self.resolved_at),
            resolved_by: text::opt_text(self.resolved_by),
        }
    }
}

impl View for ItemRecord {
    type V = ItemView;

    open spec fn view(&self) -> ItemView {
        ItemView { row: self.row@, agent_session: text::opt_text(self.agent_session) }
    }
}

impl Clone for WorkItemRow {
    fn clone(&self) -> (r: WorkItemRow)
        ensures
            r == *self,
    {
        WorkItemRow {
            id: self.id,
            provider: self.provider.clone(),
            ticket_key: self.ticket_key.clone(),
            repo: self.repo.clone(),
            state: self.state.clone(),
            branch: copy_opt(&self.branch),
            worktree_path: copy_opt(&self.worktree_path),
            pr_ref: copy_opt(&self.pr_ref),
            created_at: self.created_at.clone(),
            updated_at: self.updated_at.clone(),
        }
    }
}

impl Clone for EventRow {
    fn clone(&self) -> (r: EventRow)
        ensures
            r@ == self@,
    {
        EventRow {
            id: self.id,
            work_item_id: self.work_item_id,
            ts: self.ts.clone(),
            actor: self.actor.clone(),
            kind: self.kind.clone(),
            payload: self.payload.copy(),
        }
    }
}

impl Clone for GateRequestRow {
    fn clone(&self) -> (r: GateRequestRow)
        ensures
            r@ == self@,
    {
        GateRequestRow {
            id: self.id,
            work_item_id: self.work_item_id,
            action_kind: self.action_kind.clone(),
            payload: self.payload.copy(),
            status: self.status.clone(),
            created_at: self.created_at.clone(),
            resolved_at: copy_opt(&self.resolved_at),
            resolved_by: copy_opt(&self.resolved_by),
        }
    }
}

impl Clone for ItemRecord {
    fn clone(&self) -> (r: ItemRecord)
        ensures
            r == *self,
    {
        ItemRecord { row: self.row.clone(), agent_session: copy_opt(&self.agent_session) }
    }
}

// ---------------------------------------------------------------------------
// Tables

#[verifier::ext_equal]
pub struct TablesView {
    pub items: Seq<ItemView>,
    pub events: Seq<EventView>,
    pub gates: Seq<GateView>,
    /// The id that the last event got. It is not given again, even where the
    /// event is gone.
    pub last_event: int,
}

pub open spec fn has_item(t: TablesView, id: int) -> bool {
    exists|i: int| 0 <= i < t.items.len() && (#[trigger] t.items[i]).row.id == id
}

/// The work item with the given id.
pub open spec fn item_of(t: TablesView, id: int) -> Option<ItemView> {
    if has_item(t, id) {
        Some(t.items[choose|i: int| 0 <= i < t.items.len() && (#[trigger] t.items[i]).row.id == id])
    } else {
        None
    }
}

pub open spec fn has_gate(t: TablesView, id: int) -> bool {
    exists|i: int| 0 <= i < t.gates.len() && (#[trigger] t.gates[i]).id == id
}

/// Gate request with the given id.
pub open spec fn gate_of(t: TablesView, id: int) -> Option<GateView> {
    if has_gate(t, id) {
        Some(t.gates[choose|i: int| 0 <= i < t.gates.len() && (#[trigger] t.gates[i]).id == id])
    } else {
        None
    }
}

/// Whether some work item tracks the ticket of a provider in a repository.
pub open spec fn is_tracked(
    t: TablesView,
    provider: Seq<char>,
    ticket_key: Seq<char>,
    repo: Seq<char>,
) -> bool {
    exists|i: int|
        0 <= i < t.items.len() && same_identity(#[trigger] t.items[i], provider, ticket_key, repo)
}

pub open spec fn same_identity(
    item: ItemView,
    provider: Seq<char>,
    ticket_key: Seq<char>,
    repo: Seq<char>,
) -> bool {
    item.row.provider == provider && item.row.ticket_key == ticket_key && item.row.repo == repo
}

pub open spec fn is_id(id: int) -> bool {
    i64::MIN <= id <= i64::MAX
}

/// The keys of the schema: ids are 64-bit and ascend in every table, and a
/// ticket is tracked once per repository. References are checked as rows are
/// written, not here: a row whose work item another tool took away is still a
/// row.
pub open spec fn tables_ok(t: TablesView) -> bool {
    &&& forall|i: int, j: int|
        0 <= i < j < t.items.len() ==> (#[trigger] t.items[i]).row.id < (
        #[trigger] t.items[j]).row.id
    &&& forall|i: int, j: int|
        0 <= i < j < t.events.len() ==> (#[trigger] t.events[i]).id < (#[trigger] t.events[j]).id
    &&& forall|i: int, j: int|
        0 <= i < j < t.gates.len() ==> (#[trigger] t.gates[i]).id < (#[trigger] t.gates[j]).id
    &&& forall|i: int| 0 <= i < t.items.len() ==> is_id((#[trigger] t.items[i]).row.id)
    &&& forall|i: int| 0 <= i < t.events.len() ==> is_id((#[trigger] t.events[i]).id)
    &&& forall|i: int| 0 <= i < t.gates.len() ==> is_id((#[trigger] t.gates[i]).id)
    &&& forall|i: int, j: int|
        0 <= i < j < t.items.len() ==> !same_identity(
            #[trigger] t.items[j],
            (#[trigger] t.items[i]).row.provider,
            t.items[i].row.ticket_key,
            t.items[i].row.repo,
        )
}

/// Every reference names an existing work item.
pub open spec fn references_ok(t: TablesView) -> bool {
    &&& forall|i: int|
        0 <= i < t.events.len() ==> match (#[trigger] t.events[i]).work_item_id {
            Some(id) => has_item(t, id),
            None => true,
        }
    &&& forall|i: int| 0 <= i < t.gates.len() ==> has_item(t, (#[trigger] t.gates[i]).work_item_id)
}

/// Ids identify: the row found under the id of a row is that row.
pub proof fn lemma_item_of(t: TablesView, i: int)
    requires
        tables_ok(t),
        0 <= i < t.items.len(),
    ensures
        item_of(t, t.items[i].row.id) == Some(t.items[i]),
{
    let id = t.items[i].row.id;
    assert(has_item(t, id));
    let k = choose|k: int| 0 <= k < t.items.len() && (#[trigger] t.items[k]).row.id == id;
    assert(k == i);
}

pub proof fn lemma_gate_of(t: TablesView, i: int)
    requires
        tables_ok(t),
        0 <= i < t.gates.len(),
    ensures
        gate_of(t, t.gates[i].id) == Some(t.gates[i]),
{
    let id = t.gates[i].id;
    assert(has_gate(t, id));
    let k = choose|k: int| 0 <= k < t.gates.len() && (#[trigger] t.gates[k]).id == id;
    assert(k == i);
}

// ---------------------------------------------------------------------------
// Row changes

/// One row change, as it is saved to the database.
#[derive(Debug, PartialEq)]
pub enum Change {
    InsertItem(ItemRecord),
    UpdateItem(ItemRecord),
    InsertEvent(EventRow),
    InsertGate(GateRequestRow),
    UpdateGate(GateRequestRow),
}

#[verifier::ext_equal]
pub enum ChangeView {
    InsertItem(ItemView),
    UpdateItem(ItemView),
    InsertEvent(EventView),
    InsertGate(GateView),
    UpdateGate(GateView),
}

impl View for Change {
    type V = ChangeView;

    open spec fn view(&self) -> ChangeView {
        match *self {
            Change::InsertItem(r) => ChangeView::InsertItem(r@),
            Change::UpdateItem(r) => ChangeView::UpdateItem(r@),
            Change::InsertEvent(r) => ChangeView::InsertEvent(r@),
            Change::InsertGate(r) => ChangeView::InsertGate(r@),
            Change::UpdateGate(r) => ChangeView::UpdateGate(r@),
        }
    }
}

/// The tables with the work item of the same id replaced.
pub open spec fn with_item(t: TablesView, item: ItemView) -> TablesView {
    TablesView {
        items: Seq::new(
            t.items.len(),
            |i: int|
                if t.items[i].row.id == item.row.id {
                    item
                } else {
                    t.items[i]
                },
        ),
        ..t
    }
}

/// The tables with one gate request replaced, by its id.
pub open spec fn with_gate(t: TablesView, gate: GateView) -> TablesView {
    TablesView {
        gates: Seq::new(
            t.gates.len(),
            |i: int|
                if t.gates[i].id == gate.id {
                    gate
                } else {
                    t.gates[i]
                },
        ),
        ..t
    }
}

pub open spec fn plus_item(t: TablesView, item: ItemView) -> TablesView {
    TablesView { items: t.items.push(item), ..t }
}

pub open spec fn plus_event(t: TablesView, event: EventView) -> TablesView {
    TablesView { events: t.events.push(event), last_event: event.id, ..t }
}

pub open spec fn plus_gate(t: TablesView, gate: GateView) -> TablesView {
    TablesView { gates: t.gates.push(gate), ..t }
}

/// What one row change does to the tables.
pub open spec fn applied(t: TablesView, c: ChangeView) -> TablesView {
    match c {
        ChangeView::InsertItem(item) => plus_item(t, item),
        ChangeView::UpdateItem(item) => with_item(t, item),
        ChangeView::InsertEvent(event) => plus_event(t, event),
        ChangeView::InsertGate(gate) => plus_gate(t, gate),
        ChangeView::UpdateGate(gate) => with_gate(t, gate),
    }
}

/// What a sequence of row changes does to the tables.
pub open spec fn replayed(t: TablesView, cs: Seq<ChangeView>) -> TablesView
    decreases cs.len(),
{
    if cs.len() == 0 {
        t
    } else {
        applied(replayed(t, cs.drop_last()), cs.last())
    }
}

proof fn lemma_replay_concat(t: TablesView, a: Seq<ChangeView>, b: Seq<ChangeView>)
    ensures
        replayed(t, a + b) == replayed(replayed(t, a), b),
    decreases b.len(),
{
    if b.len() == 0 {
        assert(a + b == a);
    } else {
        lemma_replay_concat(t, a, b.drop_last());
        assert((a + b).drop_last() == a + b.drop_last());
        assert((a + b).last() == b.last());
    }
}

/// Tables together with the row changes that were not saved yet.
#[verifier::ext_equal]
pub struct StorageView {
    pub tables: TablesView,
    pub journal: Seq<ChangeView>,
}

/// The journal only grew, and what was added to it turns the earlier tables
/// into the later ones.
pub open spec fn follows(before: StorageView, after: StorageView) -> bool {
    let n = before.journal.len() as int;
    &&& n <= after.journal.len()
    &&& after.journal.take(n) == before.journal
    &&& after.tables == replayed(before.tables, after.journal.skip(n))
}

pub proof fn lemma_follows_same(s: StorageView)
    ensures
        follows(s, s),
{
    let n = s.journal.len() as int;
    assert(s.journal.take(n) == s.journal);
    assert(s.journal.skip(n) == Seq::<ChangeView>::empty());
}

/// Operations compose: what two of them add to the journal, saved together,
/// has the effect of both.
pub proof fn lemma_follows_chain(a: StorageView, b: StorageView, c: StorageView)
    requires
        follows(a, b),
        follows(b, c),
    ensures
        follows(a, c),
{
    let n = a.journal.len() as int;
    let m = b.journal.len() as int;
    assert(c.journal.take(n) == c.journal.take(m).take(n));
    assert(c.journal.skip(n) == b.journal.skip(n) + c.journal.skip(m)) by {
        assert(b.journal == c.journal.take(m));
    }
    lemma_replay_concat(a.tables, b.journal.skip(n), c.journal.skip(m));
}

/// One more row change, applied and recorded.
pub open spec fn recorded(s: StorageView, c: ChangeView) -> StorageView {
    StorageView { tables: applied(s.tables, c), journal: s.journal.push(c) }
}

proof fn lemma_recorded(s: StorageView, c: ChangeView)
    ensures
        follows(s, recorded(s, c)),
{
    let after = recorded(s, c);
    let n = s.journal.len() as int;
    assert(after.journal.take(n) == s.journal);
    assert(after.journal.skip(n) == seq![c]);
    assert(seq![c].drop_last() == Seq::<ChangeView>::empty());
    assert(replayed(s.tables, seq![c]) == applied(replayed(s.tables, seq![c].drop_last()), c));
}

// ---------------------------------------------------------------------------
// Constraints are kept

proof fn lemma_items_kept(t: TablesView, u: TablesView)
    requires
        u.items.len() >= t.items.len(),
        forall|i: int|
            0 <= i < t.items.len() ==> (#[trigger] u.items[i]).row.id == t.items[i].row.id,
    ensures
        forall|id: int| has_item(t, id) ==> #[trigger] has_item(u, id),
{
    assert forall|id: int| has_item(t, id) implies #[trigger] has_item(u, id) by {
        let i = choose|i: int| 0 <= i < t.items.len() && (#[trigger] t.items[i]).row.id == id;
        assert(u.items[i].row.id == id);
    }
}

proof fn lemma_with_item_ok(t: TablesView, item: ItemView)
    requires
        tables_ok(t),
        item_of(t, item.row.id) matches Some(o) && same_identity(
            item,
            o.row.provider,
            o.row.ticket_key,
            o.row.repo,
        ),
    ensures
        tables_ok(with_item(t, item)),
        item_of(with_item(t, item), item.row.id) == Some(item),
        forall|id: int|
            id != item.row.id ==> #[trigger] item_of(with_item(t, item), id) == item_of(t, id),
{
    let u = with_item(t, item);
    lemma_items_kept(t, u);
    lemma_items_kept(u, t);
    let k = choose|k: int| 0 <= k < t.items.len() && (#[trigger] t.items[k]).row.id == item.row.id;
    assert(item_of(t, item.row.id) == Some(t.items[k]));
    assert(u.items[k] == item);
    assert forall|i: int, j: int| 0 <= i < j < u.items.len() implies !same_identity(
        #[trigger] u.items[j],
        (#[trigger] u.items[i]).row.provider,
        u.items[i].row.ticket_key,
        u.items[i].row.repo,
    ) by {
        assert(!same_identity(
            t.items[j],
            t.items[i].row.provider,
            t.items[i].row.ticket_key,
            t.items[i].row.repo,
        ));
        assert(i != k ==> u.items[i] == t.items[i]);
        assert(j != k ==> u.items[j] == t.items[j]);
    }
    assert(u.events == t.events && u.gates == t.gates);
    assert(tables_ok(u));
    lemma_item_of(u, k);
    assert forall|id: int| id != item.row.id implies #[trigger] item_of(u, id) == item_of(t, id) by {
        if has_item(t, id) {
            let i = choose|i: int| 0 <= i < t.items.len() && (#[trigger] t.items[i]).row.id == id;
            lemma_item_of(t, i);
            assert(u.items[i] == t.items[i]);
            lemma_item_of(u, i);
        }
    }
}

proof fn lemma_with_gate_ok(t: TablesView, gate: GateView)
    requires
        tables_ok(t),
        gate_of(t, gate.id) matches Some(o) && gate.work_item_id == o.work_item_id,
    ensures
        tables_ok(with_gate(t, gate)),
        gate_of(with_gate(t, gate), gate.id) == Some(gate),
        forall|id: int|
            id != gate.id ==> #[trigger] gate_of(with_gate(t, gate), id) == gate_of(t, id),
{
    let u = with_gate(t, gate);
    lemma_items_kept(t, u);
    let k = choose|k: int| 0 <= k < t.gates.len() && (#[trigger] t.gates[k]).id == gate.id;
    assert(gate_of(t, gate.id) == Some(t.gates[k]));
    assert(u.gates[k] == gate);
    assert(u.items == t.items && u.events == t.events);
    assert(tables_ok(u));
    lemma_gate_of(u, k);
    assert forall|id: int| id != gate.id implies #[trigger] gate_of(u, id) == gate_of(t, id) by {
        if has_gate(t, id) {
            let i = choose|i: int| 0 <= i < t.gates.len() && (#[trigger] t.gates[i]).id == id;
            lemma_gate_of(t, i);
            assert(u.gates[i] == t.gates[i]);
            lemma_gate_of(u, i);
        } else if has_gate(u, id) {
            let i = choose|i: int| 0 <= i < u.gates.len() && (#[trigger] u.gates[i]).id == id;
            assert(t.gates[i].id == id);
        }
    }
}

proof fn lemma_plus_event_ok(t: TablesView, event: EventView)
    requires
        tables_ok(t),
        is_id(event.id),
        t.events.len() > 0 ==> t.events.last().id < event.id,
        event.work_item_id matches Some(id) ==> has_item(t, id),
    ensures
        tables_ok(plus_event(t, event)),
{
    let u = plus_event(t, event);
    lemma_items_kept(t, u);
    assert(u.items == t.items && u.gates == t.gates);
    assert forall|i: int, j: int| 0 <= i < j < u.events.len() implies (#[trigger] u.events[i]).id < (
    #[trigger] u.events[j]).id by {
        if j == t.events.len() {
            if i < t.events.len() - 1 {
                assert(t.events[i].id < t.events[t.events.len() - 1].id);
            }
        } else {
            assert(t.events[i].id < t.events[j].id);
        }
    }
}

proof fn lemma_plus_gate_ok(t: TablesView, gate: GateView)
    requires
        tables_ok(t),
        is_id(gate.id),
        t.gates.len() > 0 ==> t.gates.last().id < gate.id,
        has_item(t, gate.work_item_id),
    ensures
        tables_ok(plus_gate(t, gate)),
        gate_of(plus_gate(t, gate), gate.id) == Some(gate),
        !has_gate(t, gate.id),
{
    let u = plus_gate(t, gate);
    lemma_items_kept(t, u);
    assert(u.items == t.items && u.events == t.events);
    assert forall|i: int, j: int| 0 <= i < j < u.gates.len() implies (#[trigger] u.gates[i]).id < (
    #[trigger] u.gates[j]).id by {
        if j == t.gates.len() {
            if i < t.gates.len() - 1 {
                assert(t.gates[i].id < t.gates[t.gates.len() - 1].id);
            }
        } else {
            assert(t.gates[i].id < t.gates[j].id);
        }
    }
    assert(tables_ok(u));
    assert(u.gates[t.gates.len() as int] == gate);
    lemma_gate_of(u, t.gates.len() as int);
    if has_gate(t, gate.id) {
        let i = choose|i: int| 0 <= i < t.gates.len() && (#[trigger] t.gates[i]).id == gate.id;
        assert(u.gates[i].id < u.gates[t.gates.len() as int].id);
    }
}

proof fn lemma_plus_item_ok(t: TablesView, item: ItemView)
    requires
        tables_ok(t),
        is_id(item.row.id),
        t.items.len() > 0 ==> t.items.last().row.id < item.row.id,
        !is_tracked(t, item.row.provider, item.row.ticket_key, item.row.repo),
    ensures
        tables_ok(plus_item(t, item)),
        item_of(plus_item(t, item), item.row.id) == Some(item),
        !has_item(t, item.row.id),
{
    let u = plus_item(t, item);
    lemma_items_kept(t, u);
    assert(u.events == t.events && u.gates == t.gates);
    assert forall|i: int, j: int| 0 <= i < j < u.items.len() implies (
    #[trigger] u.items[i]).row.id < (#[trigger] u.items[j]).row.id by {
        if j == t.items.len() {
            if i < t.items.len() - 1 {
                assert(t.items[i].row.id < t.items[t.items.len() - 1].row.id);
            }
        } else {
            assert(t.items[i].row.id < t.items[j].row.id);
        }
    }
    assert forall|i: int, j: int| 0 <= i < j < u.items.len() implies !same_identity(
        #[trigger] u.items[j],
        (#[trigger] u.items[i]).row.provider,
        u.items[i].row.ticket_key,
        u.items[i].row.repo,
    ) by {
        if j < t.items.len() {
            assert(!same_identity(
                t.items[j],
                t.items[i].row.provider,
                t.items[i].row.ticket_key,
                t.items[i].row.repo,
            ));
        } else {
            assert(!same_identity(
                t.items[i],
                item.row.provider,
                item.row.ticket_key,
                item.row.repo,
            ));
        }
    }
    assert(tables_ok(u));
    assert(u.items[t.items.len() as int] == item);
    lemma_item_of(u, t.items.len() as int);
    if has_item(t, item.row.id) {
        let i = choose|i: int|
            0 <= i < t.items.len() && (#[trigger] t.items[i]).row.id == item.row.id;
        assert(u.items[i].row.id < u.items[t.items.len() as int].row.id);
    }
}

// ---------------------------------------------------------------------------
// Errors

#[derive(Debug, PartialEq, Eq)]
pub enum StorageError {
    CreateDir { path: String, source: String },
    Sqlite(String),
    UnsupportedVersion { found: i64, supported: i64 },
    WorkItemNotFound(i64),
    GateRequestNotFound(i64),
    GateRequestNotPending { id: i64, status: String },
}

#[verifier::ext_equal]
pub enum StorageErrorView {
    CreateDir { path: Seq<char>, source: Seq<char> },
    Sqlite(Seq<char>),
    UnsupportedVersion { found: int, supported: int },
    WorkItemNotFound(int),
    GateRequestNotFound(int),
    GateRequestNotPending { id: int, status: Seq<char> },
}

impl View for StorageError {
    type V = StorageErrorView;

    open spec fn view(&self) -> StorageErrorView {
        match *self {
            StorageError::CreateDir { path, source } => StorageErrorView::CreateDir {
                path: path@,
                source: source@,
            },
            StorageError::Sqlite(msg) => StorageErrorView::Sqlite(msg@),
            StorageError::UnsupportedVersion { found, supported } => {
                StorageErrorView::UnsupportedVersion {
                    found: found as int,
                    supported: supported as int,
                }
            },
            StorageError::WorkItemNotFound(id) => StorageErrorView::WorkItemNotFound(id as int),
            StorageError::GateRequestNotFound(id) => StorageErrorView::GateRequestNotFound(
                id as int,
            ),
            StorageError::GateRequestNotPending { id, status } => {
                StorageErrorView::GateRequestNotPending { id: id as int, status: status@ }
            },
        }
    }
}

/// The message shown for an error.
pub open spec fn storage_message(e: StorageErrorView) -> Seq<char> {
    match e {
        StorageErrorView::CreateDir { path, source } => "failed to create state directory "@ + path
            + ": "@ + source,
        StorageErrorView::Sqlite(msg) => "sqlite error: "@ + msg,
        StorageErrorView::UnsupportedVersion { found, supported } => "database schema version "@
            + text::int_text(found) + " is newer than supported version "@ + text::int_text(supported),
        StorageErrorView::WorkItemNotFound(id) => "work item "@ + text::int_text(id) + " not found"@,
        StorageErrorView::GateRequestNotFound(id) => "gate request "@ + text::int_text(id)
            + " not found"@,
        StorageErrorView::GateRequestNotPending { id, status } => "gate request "@ + text::int_text(id)
            + " is not pending (status: "@ + status + "); double-resolve rejected"@,
    }
}

impl StorageError {
    pub fn message(&self) -> (r: String)
        ensures
            r@ == storage_message(self@),
    {
        match self {
            StorageError::CreateDir { path, source } => "failed to create state directory ".to_owned().concat(
                path.as_str(),
            ).concat(": ").concat(source.as_str()),
            StorageError::Sqlite(msg) => "sqlite error: ".to_owned().concat(msg.as_str()),
            StorageError::UnsupportedVersion { found, supported } => "database schema version ".to_owned().concat(
                i64_string(*found).as_str(),
            ).concat(" is newer than supported version ").concat(i64_string(*supported).as_str()),
            StorageError::WorkItemNotFound(id) => "work item ".to_owned().concat(
                i64_string(*id).as_str(),
            ).concat(" not found"),
            StorageError::GateRequestNotFound(id) => "gate request ".to_owned().concat(
                i64_string(*id).as_str(),
            ).concat(" not found"),
            StorageError::GateRequestNotPending { id, status } => "gate request ".to_owned().concat(
                i64_string(*id).as_str(),
            ).concat(" is not pending (status: ").concat(status.as_str()).concat(
                "); double-resolve rejected",
            ),
        }
    }
}

/// No id is left for another row.
pub open spec fn full_error() -> StorageErrorView {
    StorageErrorView::Sqlite("database or disk is full"@)
}

pub open spec fn unique_error() -> StorageErrorView {
    StorageErrorView::Sqlite(
        "UNIQUE constraint failed: work_items.provider, work_items.ticket_key, work_items.repo"@,
    )
}

pub open spec fn foreign_key_error() -> StorageErrorView {
    StorageErrorView::Sqlite("FOREIGN KEY constraint failed"@)
}

// ---------------------------------------------------------------------------
// Outcomes

/// The id after the last one, starting at 1.
pub open spec fn next_item_id(t: TablesView) -> int {
    if t.items.len() == 0 {
        1
    } else {
        t.items.last().row.id + 1
    }
}

/// The id after every one that an event has or had.
pub open spec fn next_event_id(t: TablesView) -> int {
    let last = if t.events.len() == 0 {
        0
    } else {
        t.events.last().id
    };
    if last < t.last_event {
        t.last_event + 1
    } else {
        last + 1
    }
}

pub open spec fn next_gate_id(t: TablesView) -> int {
    if t.gates.len() == 0 {
        1
    } else {
        t.gates.last().id + 1
    }
}

/// Appending an event: the tables afterwards and the event's id.
pub open spec fn appended(
    t: TablesView,
    work_item_id: Option<int>,
    actor: Seq<char>,
    kind: Seq<char>,
    payload: JsonView,
    now: Seq<char>,
) -> Result<(TablesView, int), StorageErrorView> {
    let id = next_event_id(t);
    if id > i64::MAX {
        Err(full_error())
    } else if work_item_id is Some && !has_item(t, work_item_id->0) {
        Err(foreign_key_error())
    } else {
        Ok((plus_event(t, EventView { id, work_item_id, ts: now, actor, kind, payload }), id))
    }
}

/// Creating a work item: the tables afterwards and the item's id.
pub open spec fn item_created(
    t: TablesView,
    provider: Seq<char>,
    ticket_key: Seq<char>,
    repo: Seq<char>,
    state: Seq<char>,
    now: Seq<char>,
) -> Result<(TablesView, int), StorageErrorView> {
    let id = next_item_id(t);
    if id > i64::MAX {
        Err(full_error())
    } else if is_tracked(t, provider, ticket_key, repo) {
        Err(unique_error())
    } else {
        let row = WorkItemView {
            id,
            provider,
            ticket_key,
            repo,
            state,
            branch: None,
            worktree_path: None,
            pr_ref: None,
            created_at: now,
            updated_at: now,
        };
        Ok((plus_item(t, ItemView { row, agent_session: None }), id))
    }
}

/// Payload of a `state_changed` event.
pub open spec fn state_payload(from: Seq<char>, to: Seq<char>) -> JsonView {
    JsonView::Object(seq![("new"@, JsonView::Str(to)), ("old"@, JsonView::Str(from))])
}

/// Moving a work item to another state, with its audit event.
pub open spec fn state_updated(t: TablesView, id: int, state: Seq<char>, now: Seq<char>) -> Result<
    TablesView,
    StorageErrorView,
> {
    match item_of(t, id) {
        None => Err(StorageErrorView::WorkItemNotFound(id)),
        Some(item) => {
            let moved = ItemView {
                row: WorkItemView { state, updated_at: now, ..item.row },
                ..item
            };
            match appended(
                with_item(t, moved),
                Some(id),
                "system"@,
                "state_changed"@,
                state_payload(item.row.state, state),
                now,
            ) {
                Ok((u, event)) => Ok(u),
                Err(e) => Err(e),
            }
        },
    }
}

/// The columns of a work item that are set one at a time.
#[derive(Debug, Clone, Copy, PartialEq, Eq, Structural)]
pub enum ItemField {
    Branch,
    Worktree,
    PrRef,
    AgentSession,
}

/// A work item with one column set.
pub open spec fn item_with(
    item: ItemView,
    field: ItemField,
    value: Seq<char>,
    now: Seq<char>,
) -> ItemView {
    let row = WorkItemView { updated_at: now, ..item.row };
    match field {
        ItemField::Branch => ItemView { row: WorkItemView { branch: Some(value), ..row }, ..item },
        ItemField::Worktree => ItemView {
            row: WorkItemView { worktree_path: Some(value), ..row },
            ..item
        },
        ItemField::PrRef => ItemView { row: WorkItemView { pr_ref: Some(value), ..row }, ..item },
        ItemField::AgentSession => ItemView { row, agent_session: Some(value) },
    }
}

/// Setting one column of a work item.
pub open spec fn field_set(
    t: TablesView,
    id: int,
    field: ItemField,
    value: Seq<char>,
    now: Seq<char>,
) -> Result<TablesView, StorageErrorView> {
    match item_of(t, id) {
        None => Err(StorageErrorView::WorkItemNotFound(id)),
        Some(item) => Ok(with_item(t, item_with(item, field, value, now))),
    }
}

/// Payload of the audit events of gate requests.
pub open spec fn gate_payload(
    gate_id: int,
    action: Seq<char>,
    reason: Option<Seq<char>>,
) -> JsonView {
    let fields = seq![("action"@, JsonView::Str(action)), ("gate_id"@, JsonView::Int(gate_id))];
    match reason {
        None => JsonView::Object(fields),
        Some(r) => JsonView::Object(fields.push(("reason"@, JsonView::Str(r)))),
    }
}

/// Queueing a gate request, with its audit event: the tables afterwards and
/// the request's id.
pub open spec fn gate_created(
    t: TablesView,
    work_item_id: int,
    action: Seq<char>,
    payload: JsonView,
    now: Seq<char>,
) -> Result<(TablesView, int), StorageErrorView> {
    let id = next_gate_id(t);
    if !has_item(t, work_item_id) {
        Err(StorageErrorView::WorkItemNotFound(work_item_id))
    } else if id > i64::MAX {
        Err(full_error())
    } else {
        let gate = GateView {
            id,
            work_item_id,
            action_kind: action,
            payload,
            status: "pending"@,
            created_at: now,
            resolved_at: None,
            resolved_by: None,
        };
        match appended(
            plus_gate(t, gate),
            Some(work_item_id),
            "system"@,
            "gate_requested"@,
            gate_payload(id, action, None),
            now,
        ) {
            Ok((u, event)) => Ok((u, id)),
            Err(e) => Err(e),
        }
    }
}

/// Resolving a pending gate request, with its audit event.
pub open spec fn gate_resolved(
    t: TablesView,
    id: int,
    verdict: Seq<char>,
    actor: Seq<char>,
    reason: Option<Seq<char>>,
    now: Seq<char>,
) -> Result<TablesView, StorageErrorView> {
    match gate_of(t, id) {
        None => Err(StorageErrorView::GateRequestNotFound(id)),
        Some(gate) => if gate.status != "pending"@ {
            Err(StorageErrorView::GateRequestNotPending { id, status: gate.status })
        } else {
            let resolved = GateView {
                status: verdict,
                resolved_at: Some(now),
                resolved_by: Some(actor),
                ..gate
            };
            match appended(
                with_gate(t, resolved),
                Some(gate.work_item_id),
                actor,
                "gate_"@ + verdict,
                gate_payload(id, gate.action_kind, reason),
                now,
            ) {
                Ok((u, event)) => Ok(u),
                Err(e) => Err(e),
            }
        },
    }
}

/// What an operation that may fail owes: on success the promised tables, on
/// failure nothing changed; either way the journal accounts for it.
pub open spec fn settled(
    before: StorageView,
    after: StorageView,
    outcome: Result<TablesView, StorageErrorView>,
) -> bool {
    match outcome {
        Ok(t) => after.tables == t && follows(before, after),
        Err(e) => after == before,
    }
}

/// Appending an event keeps the keys and leaves the other tables alone.
pub proof fn lemma_appended_ok(
    t: TablesView,
    work_item_id: Option<int>,
    actor: Seq<char>,
    kind: Seq<char>,
    payload: JsonView,
    now: Seq<char>,
)
    requires
        tables_ok(t),
    ensures
        appended(t, work_item_id, actor, kind, payload, now) matches Ok((u, id)) ==> {
            &&& tables_ok(u)
            &&& u.items == t.items
            &&& u.gates == t.gates
            &&& forall|i: int| #[trigger] item_of(u, i) == item_of(t, i)
        },
{
    if let Ok((u, id)) = appended(t, work_item_id, actor, kind, payload, now) {
        lemma_plus_event_ok(t, u.events.last());
        assert forall|i: int| #[trigger] item_of(u, i) == item_of(t, i) by {
            lemma_same_items(t, u, i);
        }
    }
}

// ---------------------------------------------------------------------------
// Storage

pub open spec fn item_views(v: Seq<ItemRecord>) -> Seq<ItemView> {
    Seq::new(v.len(), |i: int| v[i]@)
}

pub open spec fn work_item_views(v: Seq<WorkItemRow>) -> Seq<WorkItemView> {
    Seq::new(v.len(), |i: int| v[i]@)
}

pub open spec fn event_views(v: Seq<EventRow>) -> Seq<EventView> {
    Seq::new(v.len(), |i: int| v[i]@)
}

pub open spec fn gate_views(v: Seq<GateRequestRow>) -> Seq<GateView> {
    Seq::new(v.len(), |i: int| v[i]@)
}

pub open spec fn change_views(v: Seq<Change>) -> Seq<ChangeView> {
    Seq::new(v.len(), |i: int| v[i]@)
}

/// The tables and the journal of changes that were not saved yet.
pub struct Storage {
    items: Vec<ItemRecord>,
    events: Vec<EventRow>,
    gates: Vec<GateRequestRow>,
    last_event: i64,
    journal: Vec<Change>,
}

impl View for Storage {
    type V = StorageView;

    closed spec fn view(&self) -> StorageView {
        StorageView {
            tables: TablesView {
                items: item_views(self.items@),
                events: event_views(self.events@),
                gates: gate_views(self.gates@),
                last_event: self.last_event as int,
            },
            journal: change_views(self.journal@),
        }
    }
}

impl Storage {
    /// The keys of the schema hold.
    pub open spec fn wf(&self) -> bool {
        tables_ok(self@.tables)
    }

    fn item_index(&self, id: i64) -> (r: Option<usize>)
        requires
            self.wf(),
        ensures
            match r {
                Some(i) => i < self.items@.len() && self.items@[i as int].row.id == id && item_of(
                    self@.tables,
                    id as int,
                ) == Some(self.items@[i as int]@),
                None => item_of(self@.tables, id as int) is None,
            },
    {
        let mut i: usize = 0;
        while i < self.items.len()
            invariant
                i <= self.items@.len(),
                self.wf(),
                forall|k: int| 0 <= k < i ==> (#[trigger] self@.tables.items[k]).row.id != id,
            decreases self.items@.len() - i,
        {
            if self.items[i].row.id == id {
                proof {
                    assert(self@.tables.items[i as int] == self.items@[i as int]@);
                    lemma_item_of(self@.tables, i as int);
                }
                return Some(i);
            }
            assert(self@.tables.items[i as int].row.id == self.items@[i as int].row.id);
            i = i + 1;
        }
        None
    }

    fn gate_index(&self, id: i64) -> (r: Option<usize>)
        requires
            self.wf(),
        ensures
            match r {
                Some(i) => i < self.gates@.len() && self.gates@[i as int].id == id && gate_of(
                    self@.tables,
                    id as int,
                ) == Some(self.gates@[i as int]@),
                None => gate_of(self@.tables, id as int) is None,
            },
    {
        let mut i: usize = 0;
        while i < self.gates.len()
            invariant
                i <= self.gates@.len(),
                self.wf(),
                forall|k: int| 0 <= k < i ==> (#[trigger] self@.tables.gates[k]).id != id,
            decreases self.gates@.len() - i,
        {
            if self.gates[i].id == id {
                proof {
                    assert(self@.tables.gates[i as int] == self.gates@[i as int]@);
                    lemma_gate_of(self@.tables, i as int);
                }
                return Some(i);
            }
            assert(self@.tables.gates[i as int].id == self.gates@[i as int].id);
            i = i + 1;
        }
        None
    }

    /// The id of the next event, while one is left.
    fn event_id(&self) -> (r: Option<i64>)
        ensures
            match r {
                Some(id) => next_event_id(self@.tables) == id,
                None => next_event_id(self@.tables) > i64::MAX,
            },
    {
        let n: usize = self.events.len();
        let mut last: i64 = 0;
        if n > 0 {
            assert(self@.tables.events.last() == self.events@[n - 1]@);
            last = self.events[n - 1].id;
        }
        if last < self.last_event {
            last = self.last_event;
        }
        if last == i64::MAX {
            None
        } else {
            Some(last + 1)
        }
    }

    fn item_id(&self) -> (r: Option<i64>)
        ensures
            match r {
                Some(id) => next_item_id(self@.tables) == id,
                None => next_item_id(self@.tables) > i64::MAX,
            },
    {
        let n: usize = self.items.len();
        if n == 0 {
            return Some(1);
        }
        let last: i64 = self.items[n - 1].row.id;
        assert(self@.tables.items.last() == self.items@[n - 1]@);
        if last == i64::MAX {
            None
        } else {
            Some(last + 1)
        }
    }

    fn gate_id(&self) -> (r: Option<i64>)
        ensures
            match r {
                Some(id) => next_gate_id(self@.tables) == id,
                None => next_gate_id(self@.tables) > i64::MAX,
            },
    {
        let n: usize = self.gates.len();
        if n == 0 {
            return Some(1);
        }
        let last: i64 = self.gates[n - 1].id;
        assert(self@.tables.gates.last() == self.gates@[n - 1]@);
        if last == i64::MAX {
            None
        } else {
            Some(last + 1)
        }
    }

    fn add_event(&mut self, event: EventRow)
        ensures
            final(self)@ == recorded(old(self)@, ChangeView::InsertEvent(event@)),
            follows(old(self)@, final(self)@),
    {
        let ghost before = self@;
        let ghost row = event@;
        self.journal.push(Change::InsertEvent(event.clone()));
        self.last_event = event.id;
        self.events.push(event);
        proof {
            let after = recorded(before, ChangeView::InsertEvent(row));
            assert(self@.tables.events == after.tables.events);
            assert(self@.tables == after.tables);
            assert(self@.journal == after.journal);
            lemma_recorded(before, ChangeView::InsertEvent(row));
        }
    }

    fn add_gate(&mut self, gate: GateRequestRow)
        ensures
            final(self)@ == recorded(old(self)@, ChangeView::InsertGate(gate@)),
            follows(old(self)@, final(self)@),
    {
        let ghost before = self@;
        let ghost row = gate@;
        self.journal.push(Change::InsertGate(gate.clone()));
        self.gates.push(gate);
        proof {
            let after = recorded(before, ChangeView::InsertGate(row));
            assert(self@.tables.gates == after.tables.gates);
            assert(self@.tables == after.tables);
            assert(self@.journal == after.journal);
            lemma_recorded(before, ChangeView::InsertGate(row));
        }
    }

    fn add_item(&mut self, item: ItemRecord)
        ensures
            final(self)@ == recorded(old(self)@, ChangeView::InsertItem(item@)),
            follows(old(self)@, final(self)@),
    {
        let ghost before = self@;
        let ghost row = item@;
        self.journal.push(Change::InsertItem(item.clone()));
        self.items.push(item);
        proof {
            let after = recorded(before, ChangeView::InsertItem(row));
            assert(self@.tables.items == after.tables.items);
            assert(self@.tables == after.tables);
            assert(self@.journal == after.journal);
            lemma_recorded(before, ChangeView::InsertItem(row));
        }
    }

    fn replace_item(&mut self, i: usize, item: ItemRecord)
        requires
            old(self).wf(),
            i < old(self).items@.len(),
            old(self).items@[i as int].row.id == item.row.id,
        ensures
            final(self)@ == recorded(old(self)@, ChangeView::UpdateItem(item@)),
            follows(old(self)@, final(self)@),
    {
        let ghost before = self@;
        let ghost row = item@;
        let ghost rows = self.items@;
        self.journal.push(Change::UpdateItem(item.clone()));
        self.items.set(i, item);
        proof {
            let after = recorded(before, ChangeView::UpdateItem(row));
            assert forall|k: int| 0 <= k < before.tables.items.len() implies (
            #[trigger] self@.tables.items[k]) == after.tables.items[k] by {
                assert(before.tables.items[k] == rows[k]@);
                assert(before.tables.items[i as int] == rows[i as int]@);
            }
            assert(self@.tables.items == after.tables.items);
            assert(self@.tables == after.tables);
            assert(self@.journal == after.journal);
            lemma_recorded(before, ChangeView::UpdateItem(row));
        }
    }

    fn replace_gate(&mut self, i: usize, gate: GateRequestRow)
        requires
            old(self).wf(),
            i < old(self).gates@.len(),
            old(self).gates@[i as int].id == gate.id,
        ensures
            final(self)@ == recorded(old(self)@, ChangeView::UpdateGate(gate@)),
            follows(old(self)@, final(self)@),
    {
        let ghost before = self@;
        let ghost row = gate@;
        let ghost rows = self.gates@;
        self.journal.push(Change::UpdateGate(gate.clone()));
        self.gates.set(i, gate);
        proof {
            let after = recorded(before, ChangeView::UpdateGate(row));
            assert forall|k: int| 0 <= k < before.tables.gates.len() implies (
            #[trigger] self@.tables.gates[k]) == after.tables.gates[k] by {
                assert(before.tables.gates[k] == rows[k]@);
                assert(before.tables.gates[i as int] == rows[i as int]@);
            }
            assert(self@.tables.gates == after.tables.gates);
            assert(self@.tables == after.tables);
            assert(self@.journal == after.journal);
            lemma_recorded(before, ChangeView::UpdateGate(row));
        }
    }
}

/// How the result of an operation that yields an id agrees with its outcome.
pub open spec fn id_result(
    r: Result<i64, StorageError>,
    outcome: Result<(TablesView, int), StorageErrorView>,
) -> bool {
    match (r, outcome) {
        (Ok(id), Ok((t, n))) => id == n,
        (Err(e), Err(v)) => e@ == v,
        _ => false,
    }
}

/// How the result of an operation without a value agrees with its outcome.
pub open spec fn unit_result(
    r: Result<(), StorageError>,
    outcome: Result<TablesView, StorageErrorView>,
) -> bool {
    match (r, outcome) {
        (Ok(_), Ok(t)) => true,
        (Err(e), Err(v)) => e@ == v,
        _ => false,
    }
}

/// The tables of an outcome that also yields an id.
pub open spec fn tables_part(outcome: Result<(TablesView, int), StorageErrorView>) -> Result<
    TablesView,
    StorageErrorView,
> {
    match outcome {
        Ok((t, id)) => Ok(t),
        Err(e) => Err(e),
    }
}

impl Storage {
    /// Appends one event at a given time and yields its id. Without a work
    /// item the event belongs to the daemon itself.
    pub fn append_event_at(
        &mut self,
        work_item_id: Option<i64>,
        actor: &str,
        kind: &str,
        payload: &Json,
        now: &str,
    ) -> (r: Result<i64, StorageError>)
        requires
            old(self).wf(),
        ensures
            final(self).wf(),
            id_result(
                r,
                appended(
                    old(self)@.tables,
                    opt_id(work_item_id),
                    actor@,
                    kind@,
                    payload@,
                    now@,
                ),
            ),
            settled(
                old(self)@,
                final(self)@,
                tables_part(
                    appended(
                        old(self)@.tables,
                        opt_id(work_item_id),
                        actor@,
                        kind@,
                        payload@,
                        now@,
                    ),
                ),
            ),
    {
        let ghost before = self@;
        let id = match self.event_id() {
            Some(id) => id,
            None => return Err(StorageError::Sqlite("database or disk is full".to_owned())),
        };
        if let Some(item) = work_item_id {
            if self.item_index(item).is_none() {
                return Err(StorageError::Sqlite("FOREIGN KEY constraint failed".to_owned()));
            }
        }
        let event = EventRow {
            id,
            work_item_id,
            ts: now.to_owned(),
            actor: actor.to_owned(),
            kind: kind.to_owned(),
            payload: payload.copy(),
        };
        proof {
            lemma_plus_event_ok(before.tables, event@);
        }
        self.add_event(event);
        Ok(id)
    }

    /// Inserts a new work item at a given time and yields its id. A ticket is
    /// tracked once per repository; a second insert fails.
    pub fn create_work_item_at(
        &mut self,
        provider: &str,
        ticket_key: &str,
        repo: &str,
        state: &str,
        now: &str,
    ) -> (r: Result<i64, StorageError>)
        requires
            old(self).wf(),
        ensures
            final(self).wf(),
            id_result(
                r,
                item_created(old(self)@.tables, provider@, ticket_key@, repo@, state@, now@),
            ),
            settled(
                old(self)@,
                final(self)@,
                tables_part(
                    item_created(old(self)@.tables, provider@, ticket_key@, repo@, state@, now@),
                ),
            ),
            r matches Ok(id) ==> !has_item(old(self)@.tables, id as int) && has_item(
                final(self)@.tables,
                id as int,
            ),
    {
        let ghost before = self@;
        let id = match self.item_id() {
            Some(id) => id,
            None => return Err(StorageError::Sqlite("database or disk is full".to_owned())),
        };
        let row = WorkItemRow {
            id,
            provider: provider.to_owned(),
            ticket_key: ticket_key.to_owned(),
            repo: repo.to_owned(),
            state: state.to_owned(),
            branch: None,
            worktree_path: None,
            pr_ref: None,
            created_at: now.to_owned(),
            updated_at: now.to_owned(),
        };
        let mut i: usize = 0;
        while i < self.items.len()
            invariant
                i <= self.items@.len(),
                self@ == before,
                self.wf(),
                before == old(self)@,
                row.provider@ == provider@,
                row.ticket_key@ == ticket_key@,
                row.repo@ == repo@,
                next_item_id(before.tables) <= i64::MAX,
                forall|k: int|
                    0 <= k < i ==> !same_identity(
                        #[trigger] before.tables.items[k],
                        provider@,
                        ticket_key@,
                        repo@,
                    ),
            decreases self.items@.len() - i,
        {
            let other = &self.items[i].row;
            assert(before.tables.items[i as int] == self.items@[i as int]@);
            if other.provider == row.provider && other.ticket_key == row.ticket_key && other.repo
                == row.repo {
                assert(same_identity(
                    before.tables.items[i as int],
                    provider@,
                    ticket_key@,
                    repo@,
                ));
                return Err(
                    StorageError::Sqlite(
                        "UNIQUE constraint failed: work_items.provider, work_items.ticket_key, work_items.repo".to_owned(),
                    ),
                );
            }
            i = i + 1;
        }
        assert(!is_tracked(before.tables, provider@, ticket_key@, repo@));
        let item = ItemRecord { row, agent_session: None };
        proof {
            lemma_plus_item_ok(before.tables, item@);
        }
        self.add_item(item);
        Ok(id)
    }

    /// Moves a work item to a state at a given time and appends the
    /// `state_changed` event, both or neither.
    pub fn update_work_item_state_at(&mut self, id: i64, new_state: &str, now: &str) -> (r: Result<
        (),
        StorageError,
    >)
        requires
            old(self).wf(),
        ensures
            final(self).wf(),
            unit_result(r, state_updated(old(self)@.tables, id as int, new_state@, now@)),
            settled(
                old(self)@,
                final(self)@,
                state_updated(old(self)@.tables, id as int, new_state@, now@),
            ),
    {
        let ghost before = self@;
        let i = match self.item_index(id) {
            Some(i) => i,
            None => return Err(StorageError::WorkItemNotFound(id)),
        };
        let event_id = match self.event_id() {
            Some(event_id) => event_id,
            None => {
                proof {
                    let item = self.items@[i as int]@;
                    let moved = ItemView {
                        row: WorkItemView { state: new_state@, updated_at: now@, ..item.row },
                        ..item
                    };
                    assert(next_event_id(with_item(before.tables, moved)) == next_event_id(
                        before.tables,
                    ));
                }
                return Err(StorageError::Sqlite("database or disk is full".to_owned()))
            },
        };
        let ghost item = self.items@[i as int]@;
        let mut record = self.items[i].clone();
        let previous = record.row.state;
        record.row.state = new_state.to_owned();
        record.row.updated_at = now.to_owned();
        let fields = Fields::new().with("new", Json::text(new_state)).with(
            "old",
            Json::text(previous.as_str()),
        );
        assert(fields@ == seq![
            ("new"@, JsonView::Str(new_state@)),
            ("old"@, JsonView::Str(item.row.state)),
        ]);
        let payload = fields.done();
        let ghost moved = record@;
        proof {
            assert(moved == ItemView {
                row: WorkItemView { state: new_state@, updated_at: now@, ..item.row },
                ..item
            });
            lemma_with_item_ok(before.tables, moved);
        }
        self.replace_item(i, record);
        let ghost middle = self@;
        let event = EventRow {
            id: event_id,
            work_item_id: Some(id),
            ts: now.to_owned(),
            actor: "system".to_owned(),
            kind: "state_changed".to_owned(),
            payload,
        };
        proof {
            assert(has_item(middle.tables, id as int));
            lemma_plus_event_ok(middle.tables, event@);
        }
        self.add_event(event);
        proof {
            lemma_follows_chain(before, middle, self@);
        }
        Ok(())
    }

    /// Sets one column of a work item at a given time.
    pub fn set_work_item_field_at(
        &mut self,
        id: i64,
        field: ItemField,
        value: &str,
        now: &str,
    ) -> (r: Result<(), StorageError>)
        requires
            old(self).wf(),
        ensures
            final(self).wf(),
            unit_result(r, field_set(old(self)@.tables, id as int, field, value@, now@)),
            settled(
                old(self)@,
                final(self)@,
                field_set(old(self)@.tables, id as int, field, value@, now@),
            ),
    {
        let ghost before = self@;
        let i = match self.item_index(id) {
            Some(i) => i,
            None => return Err(StorageError::WorkItemNotFound(id)),
        };
        let ghost item = self.items@[i as int]@;
        let mut record = self.items[i].clone();
        record.row.updated_at = now.to_owned();
        match field {
            ItemField::Branch => {
                record.row.branch = Some(value.to_owned());
            },
            ItemField::Worktree => {
                record.row.worktree_path = Some(value.to_owned());
            },
            ItemField::PrRef => {
                record.row.pr_ref = Some(value.to_owned());
            },
            ItemField::AgentSession => {
                record.agent_session = Some(value.to_owned());
            },
        }
        proof {
            assert(record@ == item_with(item, field, value@, now@));
            lemma_with_item_ok(before.tables, record@);
        }
        self.replace_item(i, record);
        Ok(())
    }

    /// Queues a gate request at a given time and appends the `gate_requested`
    /// event, both or neither. Yields the request's id.
    pub fn create_gate_request_at(
        &mut self,
        work_item_id: i64,
        action_kind: &str,
        payload: &Json,
        now: &str,
    ) -> (r: Result<i64, StorageError>)
        requires
            old(self).wf(),
        ensures
            final(self).wf(),
            id_result(
                r,
                gate_created(
                    old(self)@.tables,
                    work_item_id as int,
                    action_kind@,
                    payload@,
                    now@,
                ),
            ),
            settled(
                old(self)@,
                final(self)@,
                tables_part(
                    gate_created(
                        old(self)@.tables,
                        work_item_id as int,
                        action_kind@,
                        payload@,
                        now@,
                    ),
                ),
            ),
    {
        let ghost before = self@;
        if self.item_index(work_item_id).is_none() {
            return Err(StorageError::WorkItemNotFound(work_item_id));
        }
        let id = match self.gate_id() {
            Some(id) => id,
            None => return Err(StorageError::Sqlite("database or disk is full".to_owned())),
        };
        let event_id = match self.event_id() {
            Some(event_id) => event_id,
            None => return Err(StorageError::Sqlite("database or disk is full".to_owned())),
        };
        let gate = GateRequestRow {
            id,
            work_item_id,
            action_kind: action_kind.to_owned(),
            payload: payload.copy(),
            status: "pending".to_owned(),
            created_at: now.to_owned(),
            resolved_at: None,
            resolved_by: None,
        };
        proof {
            lemma_plus_gate_ok(before.tables, gate@);
        }
        self.add_gate(gate);
        let ghost middle = self@;
        let fields = Fields::new().with("action", Json::text(action_kind)).with(
            "gate_id",
            Json::from_i64(id),
        );
        assert(fields@ == seq![
            ("action"@, JsonView::Str(action_kind@)),
            ("gate_id"@, JsonView::Int(id as int)),
        ]);
        let event = EventRow {
            id: event_id,
            work_item_id: Some(work_item_id),
            ts: now.to_owned(),
            actor: "system".to_owned(),
            kind: "gate_requested".to_owned(),
            payload: fields.done(),
        };
        proof {
            lemma_items_kept(before.tables, middle.tables);
            assert(has_item(middle.tables, work_item_id as int));
            lemma_plus_event_ok(middle.tables, event@);
        }
        self.add_event(event);
        proof {
            lemma_follows_chain(before, middle, self@);
        }
        Ok(id)
    }

    /// Resolves a pending gate request at a given time and appends the
    /// `gate_<verdict>` event, both or neither. A request is resolved at most
    /// once.
    pub fn resolve_gate_request_at(
        &mut self,
        id: i64,
        verdict: &str,
        actor: &str,
        reason: Option<&str>,
        now: &str,
    ) -> (r: Result<(), StorageError>)
        requires
            old(self).wf(),
        ensures
            final(self).wf(),
            unit_result(
                r,
                gate_resolved(
                    old(self)@.tables,
                    id as int,
                    verdict@,
                    actor@,
                    text::opt_str_text(reason),
                    now@,
                ),
            ),
            settled(
                old(self)@,
                final(self)@,
                gate_resolved(
                    old(self)@.tables,
                    id as int,
                    verdict@,
                    actor@,
                    text::opt_str_text(reason),
                    now@,
                ),
            ),
    {
        let ghost before = self@;
        let i = match self.gate_index(id) {
            Some(i) => i,
            None => return Err(StorageError::GateRequestNotFound(id)),
        };
        let ghost gate = self.gates@[i as int]@;
        proof {
            assert(before.tables.gates[i as int] == gate);
        }
        if !text_eq(self.gates[i].status.as_str(), "pending") {
            return Err(
                StorageError::GateRequestNotPending { id, status: self.gates[i].status.clone() },
            );
        }
        let mut row = self.gates[i].clone();
        let work_item_id: i64 = row.work_item_id;
        row.status = verdict.to_owned();
        row.resolved_at = Some(now.to_owned());
        row.resolved_by = Some(actor.to_owned());
        let ghost resolved = row@;
        proof {
            assert(resolved == GateView {
                status: verdict@,
                resolved_at: Some(now@),
                resolved_by: Some(actor@),
                ..gate
            });
            lemma_with_gate_ok(before.tables, resolved);
            lemma_same_items(
                before.tables,
                with_gate(before.tables, resolved),
                work_item_id as int,
            );
            assert(next_event_id(with_gate(before.tables, resolved)) == next_event_id(
                before.tables,
            ));
        }
        let event_id = match self.event_id() {
            Some(event_id) => event_id,
            None => return Err(StorageError::Sqlite("database or disk is full".to_owned())),
        };
        if self.item_index(work_item_id).is_none() {
            return Err(StorageError::Sqlite("FOREIGN KEY constraint failed".to_owned()));
        }
        let fields = Fields::new().with("action", Json::text(row.action_kind.as_str())).with(
            "gate_id",
            Json::from_i64(id),
        );
        assert(fields@ == seq![
            ("action"@, JsonView::Str(gate.action_kind)),
            ("gate_id"@, JsonView::Int(id as int)),
        ]);
        let payload = match reason {
            Some(text) => fields.with("reason", Json::text(text)).done(),
            None => fields.done(),
        };
        self.replace_gate(i, row);
        let ghost middle = self@;
        let event = EventRow {
            id: event_id,
            work_item_id: Some(work_item_id),
            ts: now.to_owned(),
            actor: actor.to_owned(),
            kind: "gate_".to_owned().concat(verdict),
            payload,
        };
        proof {
            assert(has_item(middle.tables, work_item_id as int));
            lemma_plus_event_ok(middle.tables, event@);
        }
        self.add_event(event);
        proof {
            lemma_follows_chain(before, middle, self@);
        }
        Ok(())
    }
}

// ---------------------------------------------------------------------------
// The same operations at the time of the system clock

impl Storage {
    /// [`Storage::append_event_at`] now.
    pub fn append_event(
        &mut self,
        work_item_id: Option<i64>,
        actor: &str,
        kind: &str,
        payload: &Json,
    ) -> (r: Result<i64, StorageError>)
        requires
            old(self).wf(),
        ensures
            final(self).wf(),
            exists|now: Seq<char>|
                clock::is_stamp(now) && {
                    let outcome = #[trigger] appended(
                        old(self)@.tables,
                        opt_id(work_item_id),
                        actor@,
                        kind@,
                        payload@,
                        now,
                    );
                    id_result(r, outcome) && settled(
                        old(self)@,
                        final(self)@,
                        tables_part(outcome),
                    )
                },
    {
        let now = now_rfc3339();
        self.append_event_at(work_item_id, actor, kind, payload, now.as_str())
    }

    /// [`Storage::create_work_item_at`] now.
    pub fn create_work_item(
        &mut self,
        provider: &str,
        ticket_key: &str,
        repo: &str,
        state: &str,
    ) -> (r: Result<i64, StorageError>)
        requires
            old(self).wf(),
        ensures
            final(self).wf(),
            exists|now: Seq<char>|
                clock::is_stamp(now) && {
                    let outcome = #[trigger] item_created(
                        old(self)@.tables,
                        provider@,
                        ticket_key@,
                        repo@,
                        state@,
                        now,
                    );
                    id_result(r, outcome) && settled(
                        old(self)@,
                        final(self)@,
                        tables_part(outcome),
                    )
                },
    {
        let now = now_rfc3339();
        self.create_work_item_at(provider, ticket_key, repo, state, now.as_str())
    }

    /// [`Storage::update_work_item_state_at`] now.
    pub fn update_work_item_state(&mut self, id: i64, new_state: &str) -> (r: Result<
        (),
        StorageError,
    >)
        requires
            old(self).wf(),
        ensures
            final(self).wf(),
            exists|now: Seq<char>|
                clock::is_stamp(now) && {
                    let outcome = #[trigger] state_updated(
                        old(self)@.tables,
                        id as int,
                        new_state@,
                        now,
                    );
                    unit_result(r, outcome) && settled(old(self)@, final(self)@, outcome)
                },
    {
        let now = now_rfc3339();
        self.update_work_item_state_at(id, new_state, now.as_str())
    }

    fn set_work_item_field(&mut self, id: i64, field: ItemField, value: &str) -> (r: Result<
        (),
        StorageError,
    >)
        requires
            old(self).wf(),
        ensures
            final(self).wf(),
            exists|now: Seq<char>|
                clock::is_stamp(now) && {
                    let outcome = #[trigger] field_set(
                        old(self)@.tables,
                        id as int,
                        field,
                        value@,
                        now,
                    );
                    unit_result(r, outcome) && settled(old(self)@, final(self)@, outcome)
                },
    {
        let now = now_rfc3339();
        self.set_work_item_field_at(id, field, value, now.as_str())
    }

    /// Records the branch of a work item.
    pub fn set_work_item_branch(&mut self, id: i64, branch: &str) -> (r: Result<(), StorageError>)
        requires
            old(self).wf(),
        ensures
            final(self).wf(),
            exists|now: Seq<char>|
                clock::is_stamp(now) && {
                    let outcome = #[trigger] field_set(
                        old(self)@.tables,
                        id as int,
                        ItemField::Branch,
                        branch@,
                        now,
                    );
                    unit_result(r, outcome) && settled(old(self)@, final(self)@, outcome)
                },
    {
        self.set_work_item_field(id, ItemField::Branch, branch)
    }

    /// Records the worktree of a work item.
    pub fn set_work_item_worktree(&mut self, id: i64, worktree_path: &str) -> (r: Result<
        (),
        StorageError,
    >)
        requires
            old(self).wf(),
        ensures
            final(self).wf(),
            exists|now: Seq<char>|
                clock::is_stamp(now) && {
                    let outcome = #[trigger] field_set(
                        old(self)@.tables,
                        id as int,
                        ItemField::Worktree,
                        worktree_path@,
                        now,
                    );
                    unit_result(r, outcome) && settled(old(self)@, final(self)@, outcome)
                },
    {
        self.set_work_item_field(id, ItemField::Worktree, worktree_path)
    }

    /// Records the pull request of a work item.
    pub fn set_work_item_pr_ref(&mut self, id: i64, pr_ref: &str) -> (r: Result<(), StorageError>)
        requires
            old(self).wf(),
        ensures
            final(self).wf(),
            exists|now: Seq<char>|
                clock::is_stamp(now) && {
                    let outcome = #[trigger] field_set(
                        old(self)@.tables,
                        id as int,
                        ItemField::PrRef,
                        pr_ref@,
                        now,
                    );
                    unit_result(r, outcome) && settled(old(self)@, final(self)@, outcome)
                },
    {
        self.set_work_item_field(id, ItemField::PrRef, pr_ref)
    }

    /// Records the agent session that drives a work item, in place of an
    /// earlier one.
    pub fn set_work_item_agent_session(&mut self, id: i64, session: &str) -> (r: Result<
        (),
        StorageError,
    >)
        requires
            old(self).wf(),
        ensures
            final(self).wf(),
            exists|now: Seq<char>|
                clock::is_stamp(now) && {
                    let outcome = #[trigger] field_set(
                        old(self)@.tables,
                        id as int,
                        ItemField::AgentSession,
                        session@,
                        now,
                    );
                    unit_result(r, outcome) && settled(old(self)@, final(self)@, outcome)
                },
    {
        self.set_work_item_field(id, ItemField::AgentSession, session)
    }

    /// [`Storage::create_gate_request_at`] now.
    pub fn create_gate_request(
        &mut self,
        work_item_id: i64,
        action_kind: &str,
        payload: &Json,
    ) -> (r: Result<i64, StorageError>)
        requires
            old(self).wf(),
        ensures
            final(self).wf(),
            exists|now: Seq<char>|
                clock::is_stamp(now) && {
                    let outcome = #[trigger] gate_created(
                        old(self)@.tables,
                        work_item_id as int,
                        action_kind@,
                        payload@,
                        now,
                    );
                    id_result(r, outcome) && settled(
                        old(self)@,
                        final(self)@,
                        tables_part(outcome),
                    )
                },
    {
        let now = now_rfc3339();
        self.create_gate_request_at(work_item_id, action_kind, payload, now.as_str())
    }

    /// [`Storage::resolve_gate_request_at`] now.
    pub fn resolve_gate_request(
        &mut self,
        id: i64,
        verdict: &str,
        actor: &str,
        reason: Option<&str>,
    ) -> (r: Result<(), StorageError>)
        requires
            old(self).wf(),
        ensures
            final(self).wf(),
            exists|now: Seq<char>|
                clock::is_stamp(now) && {
                    let outcome = #[trigger] gate_resolved(
                        old(self)@.tables,
                        id as int,
                        verdict@,
                        actor@,
                        text::opt_str_text(reason),
                        now,
                    );
                    unit_result(r, outcome) && settled(old(self)@, final(self)@, outcome)
                },
    {
        let now = now_rfc3339();
        self.resolve_gate_request_at(id, verdict, actor, reason, now.as_str())
    }
}

// ---------------------------------------------------------------------------
// Reading

/// Events of one work item, or all of them, in insertion order.
pub open spec fn events_of(t: TablesView, work_item_id: Option<int>) -> Seq<EventView> {
    match work_item_id {
        None => t.events,
        Some(id) => t.events.filter(|e: EventView| e.work_item_id == Some(id)),
    }
}

/// Every work item, in creation order.
pub open spec fn listed(t: TablesView) -> Seq<WorkItemView> {
    Seq::new(t.items.len(), |i: int| t.items[i].row)
}

/// Whether a gate request waits for a verdict, on one work item or on any.
pub open spec fn is_pending(g: GateView, work_item_id: Option<int>) -> bool {
    g.status == "pending"@ && (work_item_id is None || work_item_id == Some(g.work_item_id))
}

/// Pending gate requests of one work item, or all of them, oldest first.
pub open spec fn pending_of(t: TablesView, work_item_id: Option<int>) -> Seq<GateView> {
    t.gates.filter(|g: GateView| is_pending(g, work_item_id))
}

/// Filtering one element more.
pub proof fn lemma_filter_step<A>(s: Seq<A>, i: int, keep: spec_fn(A) -> bool)
    requires
        0 <= i < s.len(),
    ensures
        s.take(i + 1).filter(keep) == if keep(s[i]) {
            s.take(i).filter(keep).push(s[i])
        } else {
            s.take(i).filter(keep)
        },
{
    reveal(Seq::filter);
    assert(s.take(i + 1).drop_last() == s.take(i));
    assert(s.take(i + 1).last() == s[i]);
}

impl Storage {
    /// Events in insertion order; with an id, those of one work item.
    pub fn events(&self, work_item_id: Option<i64>) -> (r: Result<Vec<EventRow>, StorageError>)
        ensures
            r matches Ok(v) && event_views(v@) == events_of(self@.tables, opt_id(work_item_id)),
    {
        let ghost all = self@.tables.events;
        let ghost keep = |e: EventView| e.work_item_id == opt_id(work_item_id);
        let mut out: Vec<EventRow> = Vec::new();
        let mut i: usize = 0;
        proof {
            reveal(Seq::filter);
            assert(all.take(0).filter(keep) == Seq::<EventView>::empty());
        }
        while i < self.events.len()
            invariant
                i <= self.events@.len(),
                all == self@.tables.events,
                keep == |e: EventView| e.work_item_id == opt_id(work_item_id),
                work_item_id is None ==> event_views(out@) == all.take(i as int),
                work_item_id is Some ==> event_views(out@) == all.take(i as int).filter(keep),
            decreases self.events@.len() - i,
        {
            let row = &self.events[i];
            proof {
                assert(all[i as int] == row@);
                lemma_filter_step(all, i as int, keep);
            }
            let ghost before = event_views(out@);
            let wanted: bool = match (work_item_id, row.work_item_id) {
                (None, _) => true,
                (Some(id), Some(owner)) => id == owner,
                (Some(_), None) => false,
            };
            if wanted {
                out.push(row.clone());
                assert(event_views(out@) == before.push(row@));
            }
            assert(all.take(i + 1) == all.take(i as int).push(all[i as int]));
            i = i + 1;
        }
        proof {
            assert(all.take(i as int) == all);
            if work_item_id is Some {
                let id = work_item_id->0 as int;
                assert(keep == |e: EventView| e.work_item_id == Some(id));
            }
        }
        Ok(out)
    }

    /// Every work item, in creation order.
    pub fn list_work_items(&self) -> (r: Result<Vec<WorkItemRow>, StorageError>)
        ensures
            r matches Ok(v) && work_item_views(v@) == listed(self@.tables),
    {
        let mut out: Vec<WorkItemRow> = Vec::new();
        let mut i: usize = 0;
        while i < self.items.len()
            invariant
                i <= self.items@.len(),
                out@.len() == i,
                forall|k: int| 0 <= k < i ==> (#[trigger] out@[k])@ == self@.tables.items[k].row,
            decreases self.items@.len() - i,
        {
            assert(self@.tables.items[i as int] == self.items@[i as int]@);
            out.push(self.items[i].row.clone());
            i = i + 1;
        }
        assert(work_item_views(out@) == listed(self@.tables));
        Ok(out)
    }

    /// Pending gate requests in creation order; with an id, those of one work
    /// item.
    pub fn pending_gate_requests(&self, work_item_id: Option<i64>) -> (r: Result<
        Vec<GateRequestRow>,
        StorageError,
    >)
        ensures
            r matches Ok(v) && gate_views(v@) == pending_of(self@.tables, opt_id(work_item_id)),
    {
        let ghost all = self@.tables.gates;
        let ghost keep = |g: GateView| is_pending(g, opt_id(work_item_id));
        let mut out: Vec<GateRequestRow> = Vec::new();
        let mut i: usize = 0;
        proof {
            reveal(Seq::filter);
            assert(all.take(0).filter(keep) == Seq::<GateView>::empty());
        }
        while i < self.gates.len()
            invariant
                i <= self.gates@.len(),
                all == self@.tables.gates,
                keep == |g: GateView| is_pending(g, opt_id(work_item_id)),
                gate_views(out@) == all.take(i as int).filter(keep),
            decreases self.gates@.len() - i,
        {
            let row = &self.gates[i];
            proof {
                assert(all[i as int] == row@);
                lemma_filter_step(all, i as int, keep);
            }
            let ghost before = gate_views(out@);
            let ours: bool = match work_item_id {
                None => true,
                Some(id) => id == row.work_item_id,
            };
            if ours && text_eq(row.status.as_str(), "pending") {
                out.push(row.clone());
                assert(gate_views(out@) == before.push(row@));
            }
            i = i + 1;
        }
        assert(all.take(i as int) == all);
        Ok(out)
    }

    /// Number of pending gate requests of a work item, as far as 32 bits hold
    /// it.
    pub fn count_pending_gates(&self, work_item_id: i64) -> (r: Result<u32, StorageError>)
        ensures
            ({
                let n = pending_of(self@.tables, Some(work_item_id as int)).len();
                match r {
                    Ok(count) => count == n,
                    Err(e) => n > u32::MAX && e@ == StorageErrorView::Sqlite(
                        "Integer "@ + text::nat_text(n) + " out of range at index 0"@,
                    ),
                }
            }),
    {
        let rows = match self.pending_gate_requests(Some(work_item_id)) {
            Ok(rows) => rows,
            Err(e) => return Err(e),
        };
        assert(gate_views(rows@).len() == rows@.len());
        let n: usize = rows.len();
        if n as u64 <= u32::MAX as u64 {
            Ok(n as u32)
        } else {
            Err(
                StorageError::Sqlite(
                    "Integer ".to_owned().concat(u64_string(n as u64).as_str()).concat(
                        " out of range at index 0",
                    ),
                ),
            )
        }
    }

    /// The work item with the given id.
    pub fn get_work_item(&self, id: i64) -> (r: Result<WorkItemRow, StorageError>)
        requires
            self.wf(),
        ensures
            match (r, item_of(self@.tables, id as int)) {
                (Ok(row), Some(item)) => row@ == item.row,
                (Err(e), None) => e@ == StorageErrorView::WorkItemNotFound(id as int),
                _ => false,
            },
    {
        match self.item_index(id) {
            Some(i) => Ok(self.items[i].row.clone()),
            None => Err(StorageError::WorkItemNotFound(id)),
        }
    }

    /// The agent session recorded for a work item; `None` while no agent was
    /// started.
    pub fn work_item_agent_session(&self, id: i64) -> (r: Result<Option<String>, StorageError>)
        requires
            self.wf(),
        ensures
            match (r, item_of(self@.tables, id as int)) {
                (Ok(session), Some(item)) => text::opt_text(session) == item.agent_session,
                (Err(e), None) => e@ == StorageErrorView::WorkItemNotFound(id as int),
                _ => false,
            },
    {
        match self.item_index(id) {
            Some(i) => Ok(copy_opt(&self.items[i].agent_session)),
            None => Err(StorageError::WorkItemNotFound(id)),
        }
    }

    /// Gate request with the given id.
    pub fn get_gate_request(&self, id: i64) -> (r: Result<GateRequestRow, StorageError>)
        requires
            self.wf(),
        ensures
            match (r, gate_of(self@.tables, id as int)) {
                (Ok(row), Some(gate)) => row@ == gate,
                (Err(e), None) => e@ == StorageErrorView::GateRequestNotFound(id as int),
                _ => false,
            },
    {
        match self.gate_index(id) {
            Some(i) => Ok(self.gates[i].clone()),
            None => Err(StorageError::GateRequestNotFound(id)),
        }
    }
}

// ---------------------------------------------------------------------------
// Opening and saving

/// Schema version this library reads and writes.
pub const SCHEMA_VERSION: i64 = 2;

/// First schema: work items, events and gate requests.
pub const MIGRATION_1: &'static str = "CREATE TABLE work_items (
        id INTEGER PRIMARY KEY,
        provider TEXT NOT NULL,
        ticket_key TEXT NOT NULL,
        repo TEXT NOT NULL,
        state TEXT NOT NULL,
        branch TEXT,
        worktree_path TEXT,
        pr_ref TEXT,
        created_at TEXT NOT NULL,
        updated_at TEXT NOT NULL,
        UNIQUE(provider, ticket_key, repo)
    );
    CREATE TABLE events (
        id INTEGER PRIMARY KEY AUTOINCREMENT,
        work_item_id INTEGER REFERENCES work_items(id),
        ts TEXT NOT NULL,
        actor TEXT NOT NULL,
        kind TEXT NOT NULL,
        payload TEXT NOT NULL
    );
    CREATE INDEX idx_events_work_item ON events(work_item_id);
    CREATE TABLE gate_requests (
        id INTEGER PRIMARY KEY,
        work_item_id INTEGER NOT NULL REFERENCES work_items(id),
        action_kind TEXT NOT NULL,
        payload TEXT NOT NULL,
        status TEXT NOT NULL DEFAULT 'pending',
        created_at TEXT NOT NULL,
        resolved_at TEXT,
        resolved_by TEXT
    );
    CREATE INDEX idx_gate_requests_pending ON gate_requests(work_item_id, status);";

/// Second schema: the agent session of a work item, NULL while none was
/// started.
pub const MIGRATION_2: &'static str = "ALTER TABLE work_items ADD COLUMN agent_session TEXT;";

/// The migrations that a database of some version lacks, each with the version
/// it leads to, in the order they are applied. A version below zero counts as
/// up to date; one above the supported version is refused.
pub open spec fn missing_migrations(version: int) -> Result<
    Seq<(i64, Seq<char>)>,
    StorageErrorView,
> {
    if version > SCHEMA_VERSION {
        Err(
            StorageErrorView::UnsupportedVersion {
                found: version,
                supported: SCHEMA_VERSION as int,
            },
        )
    } else if version == 0 {
        Ok(seq![(1i64, MIGRATION_1@), (2i64, MIGRATION_2@)])
    } else if version == 1 {
        Ok(seq![(2i64, MIGRATION_2@)])
    } else {
        Ok(Seq::empty())
    }
}

pub fn migrate(version: i64) -> (r: Result<Vec<(i64, &'static str)>, StorageError>)
    ensures
        match (r, missing_migrations(version as int)) {
            (Ok(v), Ok(m)) => v@.len() == m.len() && forall|i: int|
                0 <= i < m.len() ==> (#[trigger] v@[i]).0 == m[i].0 && v@[i].1@ == m[i].1,
            (Err(e), Err(x)) => e@ == x,
            _ => false,
        },
{
    if version > SCHEMA_VERSION {
        return Err(StorageError::UnsupportedVersion { found: version, supported: SCHEMA_VERSION });
    }
    let mut out: Vec<(i64, &'static str)> = Vec::new();
    if version == 0 {
        out.push((1, MIGRATION_1));
    }
    if version == 0 || version == 1 {
        out.push((2, MIGRATION_2));
    }
    Ok(out)
}

/// The rows of a database, each table in ascending id order.
pub struct Snapshot {
    pub items: Vec<ItemRecord>,
    pub events: Vec<EventRow>,
    pub gates: Vec<GateRequestRow>,
    /// The id that the last event got, 0 where there was none.
    pub last_event: i64,
}

impl View for Snapshot {
    type V = TablesView;

    open spec fn view(&self) -> TablesView {
        TablesView {
            items: item_views(self.items@),
            events: event_views(self.events@),
            gates: gate_views(self.gates@),
            last_event: self.last_event as int,
        }
    }
}

pub open spec fn items_ok(t: TablesView) -> bool {
    &&& forall|i: int, j: int|
        0 <= i < j < t.items.len() ==> (#[trigger] t.items[i]).row.id < (
        #[trigger] t.items[j]).row.id
    &&& forall|i: int, j: int|
        0 <= i < j < t.items.len() ==> !same_identity(
            #[trigger] t.items[j],
            (#[trigger] t.items[i]).row.provider,
            t.items[i].row.ticket_key,
            t.items[i].row.repo,
        )
}

impl Snapshot {
    /// Whether no row before `n` has the identity or an id not below that of
    /// row `n`.
    fn item_fits(&self, n: usize) -> (r: bool)
        requires
            n < self.items@.len(),
        ensures
            r == forall|i: int|
                0 <= i < n ==> (#[trigger] self@.items[i]).row.id < self@.items[n as int].row.id
                    && !same_identity(
                    self@.items[n as int],
                    self@.items[i].row.provider,
                    self@.items[i].row.ticket_key,
                    self@.items[i].row.repo,
                ),
    {
        let row = &self.items[n].row;
        assert(self@.items[n as int] == self.items@[n as int]@);
        let mut i: usize = 0;
        while i < n
            invariant
                i <= n < self.items@.len(),
                row == self.items@[n as int].row,
                self@.items[n as int] == self.items@[n as int]@,
                forall|k: int|
                    0 <= k < i ==> (#[trigger] self@.items[k]).row.id < self@.items[n as int].row.id
                        && !same_identity(
                        self@.items[n as int],
                        self@.items[k].row.provider,
                        self@.items[k].row.ticket_key,
                        self@.items[k].row.repo,
                    ),
            decreases n - i,
        {
            let other = &self.items[i].row;
            assert(self@.items[i as int] == self.items@[i as int]@);
            if other.id >= row.id || (other.provider == row.provider && other.ticket_key
                == row.ticket_key && other.repo == row.repo) {
                return false;
            }
            i = i + 1;
        }
        true
    }

    fn items_valid(&self) -> (r: bool)
        ensures
            r == items_ok(self@),
    {
        let mut n: usize = 0;
        while n < self.items.len()
            invariant
                n <= self.items@.len(),
                forall|i: int, j: int|
                    0 <= i < j < n ==> (#[trigger] self@.items[i]).row.id < (
                    #[trigger] self@.items[j]).row.id && !same_identity(
                        self@.items[j],
                        self@.items[i].row.provider,
                        self@.items[i].row.ticket_key,
                        self@.items[i].row.repo,
                    ),
            decreases self.items@.len() - n,
        {
            if !self.item_fits(n) {
                return false;
            }
            n = n + 1;
        }
        true
    }

    fn events_valid(&self) -> (r: bool)
        ensures
            r == forall|i: int, j: int|
                0 <= i < j < self@.events.len() ==> (#[trigger] self@.events[i]).id < (
                #[trigger] self@.events[j]).id,
    {
        let mut n: usize = 0;
        while n < self.events.len()
            invariant
                n <= self.events@.len(),
                forall|i: int, j: int|
                    0 <= i < j < n ==> (#[trigger] self@.events[i]).id < (
                    #[trigger] self@.events[j]).id,
            decreases self.events@.len() - n,
        {
            let row = &self.events[n];
            assert(self@.events[n as int] == row@);
            if n > 0 {
                assert(self@.events[n - 1] == self.events@[n - 1]@);
                if self.events[n - 1].id >= row.id {
                    return false;
                }
            }
            n = n + 1;
        }
        true
    }

    fn gates_valid(&self) -> (r: bool)
        ensures
            r == forall|i: int, j: int|
                0 <= i < j < self@.gates.len() ==> (#[trigger] self@.gates[i]).id < (
                #[trigger] self@.gates[j]).id,
    {
        let mut n: usize = 0;
        while n < self.gates.len()
            invariant
                n <= self.gates@.len(),
                forall|i: int, j: int|
                    0 <= i < j < n ==> (#[trigger] self@.gates[i]).id < (
                    #[trigger] self@.gates[j]).id,
            decreases self.gates@.len() - n,
        {
            let row = &self.gates[n];
            assert(self@.gates[n as int] == row@);
            if n > 0 {
                assert(self@.gates[n - 1] == self.gates@[n - 1]@);
                if self.gates[n - 1].id >= row.id {
                    return false;
                }
            }
            n = n + 1;
        }
        true
    }
}

impl Storage {
    /// Opens the rows of a database whose schema has the given version. Rows
    /// that break a key of the schema are refused; a reference to a work item
    /// that is gone is not.
    pub fn open(user_version: i64, rows: Snapshot) -> (r: Result<Storage, StorageError>)
        ensures
            match r {
                Ok(s) => user_version <= SCHEMA_VERSION && tables_ok(rows@) && s.wf() && s@ == (
                StorageView { tables: rows@, journal: Seq::empty() }),
                Err(e) => if user_version > SCHEMA_VERSION {
                    e@ == (StorageErrorView::UnsupportedVersion {
                        found: user_version as int,
                        supported: SCHEMA_VERSION as int,
                    })
                } else {
                    !tables_ok(rows@) && e@ == StorageErrorView::Sqlite(
                        "database disk image is malformed"@,
                    )
                },
            },
    {
        if user_version > SCHEMA_VERSION {
            return Err(
                StorageError::UnsupportedVersion {
                    found: user_version,
                    supported: SCHEMA_VERSION,
                },
            );
        }
        let items = rows.items_valid();
        let events = rows.events_valid();
        let gates = rows.gates_valid();
        proof {
            assert forall|i: int| 0 <= i < rows@.items.len() implies is_id(
                (#[trigger] rows@.items[i]).row.id,
            ) by {
                assert(rows@.items[i] == rows.items@[i]@);
            }
            assert forall|i: int| 0 <= i < rows@.events.len() implies is_id(
                (#[trigger] rows@.events[i]).id,
            ) by {
                assert(rows@.events[i] == rows.events@[i]@);
            }
            assert forall|i: int| 0 <= i < rows@.gates.len() implies is_id(
                (#[trigger] rows@.gates[i]).id,
            ) by {
                assert(rows@.gates[i] == rows.gates@[i]@);
            }
        }
        if !items || !events || !gates {
            return Err(StorageError::Sqlite("database disk image is malformed".to_owned()));
        }
        let s = Storage {
            items: rows.items,
            events: rows.events,
            gates: rows.gates,
            last_event: rows.last_event,
            journal: Vec::new(),
        };
        assert(s@.journal == Seq::<ChangeView>::empty());
        Ok(s)
    }

    /// Hands out the row changes that were not saved yet and forgets them.
    pub fn take_changes(&mut self) -> (r: Vec<Change>)
        ensures
            change_views(r@) == old(self)@.journal,
            final(self)@.tables == old(self)@.tables,
            final(self)@.journal == Seq::<ChangeView>::empty(),
    {
        let mut taken: Vec<Change> = Vec::new();
        std::mem::swap(&mut taken, &mut self.journal);
        taken
    }
}

// ---------------------------------------------------------------------------
// Laws

proof fn lemma_replay_keeps_events(t: TablesView, cs: Seq<ChangeView>)
    ensures
        t.events.is_prefix_of(replayed(t, cs).events),
        t.items.len() <= replayed(t, cs).items.len(),
        t.gates.len() <= replayed(t, cs).gates.len(),
        forall|i: int|
            0 <= i < t.items.len() ==> (#[trigger] replayed(t, cs).items[i]).row.id
                == t.items[i].row.id,
        forall|i: int|
            0 <= i < t.gates.len() ==> (#[trigger] replayed(t, cs).gates[i]).id == t.gates[i].id,
    decreases cs.len(),
{
    if cs.len() > 0 {
        lemma_replay_keeps_events(t, cs.drop_last());
        let mid = replayed(t, cs.drop_last());
        let end = replayed(t, cs);
        assert(end == applied(mid, cs.last()));
        assert forall|i: int| 0 <= i < t.events.len() implies end.events[i] == t.events[i] by {
            assert(mid.events[i] == t.events[i]);
        }
        assert forall|i: int| 0 <= i < t.items.len() implies (#[trigger] end.items[i]).row.id
            == t.items[i].row.id by {
            assert(mid.items[i].row.id == t.items[i].row.id);
        }
        assert forall|i: int| 0 <= i < t.gates.len() implies (#[trigger] end.gates[i]).id
            == t.gates[i].id by {
            assert(mid.gates[i].id == t.gates[i].id);
        }
    }
}

/// The event log is append-only: whatever operations ran in between, every
/// earlier event is still there, unchanged and in its place.
pub proof fn lemma_log_is_append_only(before: StorageView, after: StorageView)
    requires
        follows(before, after),
    ensures
        before.tables.events.is_prefix_of(after.tables.events),
{
    lemma_replay_keeps_events(
        before.tables,
        after.journal.skip(before.journal.len() as int),
    );
}

/// Work items and gate requests are never removed.
pub proof fn lemma_rows_never_vanish(before: StorageView, after: StorageView, id: int)
    requires
        follows(before, after),
    ensures
        has_item(before.tables, id) ==> has_item(after.tables, id),
        has_gate(before.tables, id) ==> has_gate(after.tables, id),
{
    lemma_replay_keeps_events(
        before.tables,
        after.journal.skip(before.journal.len() as int),
    );
    let (t, u) = (before.tables, after.tables);
    if has_item(t, id) {
        let i = choose|i: int| 0 <= i < t.items.len() && (#[trigger] t.items[i]).row.id == id;
        assert(u.items[i].row.id == id);
    }
    if has_gate(t, id) {
        let i = choose|i: int| 0 <= i < t.gates.len() && (#[trigger] t.gates[i]).id == id;
        assert(u.gates[i].id == id);
    }
}

/// A gate request is resolved at most once: after a verdict, any further
/// attempt is refused and reports the verdict that stands.
pub proof fn lemma_resolve_once(
    t: TablesView,
    u: TablesView,
    id: int,
    verdict: Seq<char>,
    actor: Seq<char>,
    reason: Option<Seq<char>>,
    now: Seq<char>,
    verdict2: Seq<char>,
    actor2: Seq<char>,
    reason2: Option<Seq<char>>,
    now2: Seq<char>,
)
    requires
        tables_ok(t),
        gate_resolved(t, id, verdict, actor, reason, now) == Ok::<TablesView, StorageErrorView>(u),
        verdict != "pending"@,
    ensures
        gate_resolved(u, id, verdict2, actor2, reason2, now2) == Err::<
            TablesView,
            StorageErrorView,
        >(StorageErrorView::GateRequestNotPending { id, status: verdict }),
{
    let gate = gate_of(t, id)->0;
    let resolved = GateView {
        status: verdict,
        resolved_at: Some(now),
        resolved_by: Some(actor),
        ..gate
    };
    let i = choose|i: int| 0 <= i < t.gates.len() && (#[trigger] t.gates[i]).id == id;
    assert(gate.id == id);
    lemma_with_gate_ok(t, resolved);
    let mid = with_gate(t, resolved);
    assert(u.gates == mid.gates);
    lemma_same_gates(mid, u, id);
}

proof fn lemma_same_gates(t: TablesView, u: TablesView, id: int)
    requires
        t.gates == u.gates,
    ensures
        gate_of(t, id) == gate_of(u, id),
{
    assert(has_gate(t, id) == has_gate(u, id)) by {
        if has_gate(t, id) {
            let i = choose|i: int| 0 <= i < t.gates.len() && (#[trigger] t.gates[i]).id == id;
            assert(u.gates[i].id == id);
        }
        if has_gate(u, id) {
            let i = choose|i: int| 0 <= i < u.gates.len() && (#[trigger] u.gates[i]).id == id;
            assert(t.gates[i].id == id);
        }
    }
}

proof fn lemma_same_items(t: TablesView, u: TablesView, id: int)
    requires
        t.items == u.items,
    ensures
        item_of(t, id) == item_of(u, id),
{
    assert(has_item(t, id) == has_item(u, id)) by {
        if has_item(t, id) {
            let i = choose|i: int| 0 <= i < t.items.len() && (#[trigger] t.items[i]).row.id == id;
            assert(u.items[i].row.id == id);
        }
        if has_item(u, id) {
            let i = choose|i: int| 0 <= i < u.items.len() && (#[trigger] u.items[i]).row.id == id;
            assert(t.items[i].row.id == id);
        }
    }
}

/// A queued gate request joins the pending ones of its work item, last.
pub proof fn lemma_request_is_pending(
    t: TablesView,
    u: TablesView,
    work_item_id: int,
    action: Seq<char>,
    payload: JsonView,
    now: Seq<char>,
    id: int,
)
    requires
        tables_ok(t),
        gate_created(t, work_item_id, action, payload, now) == Ok::<
            (TablesView, int),
            StorageErrorView,
        >((u, id)),
    ensures
        gate_of(u, id) matches Some(g) && g.status == "pending"@ && g.payload == payload
            && g.action_kind == action && g.work_item_id == work_item_id && pending_of(
            u,
            Some(work_item_id),
        ) == pending_of(t, Some(work_item_id)).push(g),
{
    let gate = GateView {
        id,
        work_item_id,
        action_kind: action,
        payload,
        status: "pending"@,
        created_at: now,
        resolved_at: None,
        resolved_by: None,
    };
    lemma_plus_gate_ok(t, gate);
    lemma_same_gates(plus_gate(t, gate), u, id);
    let keep = |g: GateView| is_pending(g, Some(work_item_id));
    assert(u.gates == t.gates.push(gate));
    lemma_filter_step(u.gates, t.gates.len() as int, keep);
    assert(u.gates.take(t.gates.len() as int) == t.gates);
    assert(u.gates.take(t.gates.len() as int + 1) == u.gates);
}

/// A verdict is on record: the request carries it, and the last event says who
/// gave it. Nothing else about the request changes.
pub proof fn lemma_resolution_is_recorded(
    t: TablesView,
    u: TablesView,
    id: int,
    verdict: Seq<char>,
    actor: Seq<char>,
    reason: Option<Seq<char>>,
    now: Seq<char>,
)
    requires
        tables_ok(t),
        gate_resolved(t, id, verdict, actor, reason, now) == Ok::<TablesView, StorageErrorView>(u),
    ensures
        tables_ok(u),
        gate_of(t, id) matches Some(g) && g.status == "pending"@ && gate_of(u, id) == Some(
            GateView {
                status: verdict,
                resolved_at: Some(now),
                resolved_by: Some(actor),
                ..g
            },
        ),
        u.items == t.items,
        u.events.last().kind == "gate_"@ + verdict,
        u.events.last().actor == actor,
{
    let gate = gate_of(t, id)->0;
    let resolved = GateView {
        status: verdict,
        resolved_at: Some(now),
        resolved_by: Some(actor),
        ..gate
    };
    let i = choose|i: int| 0 <= i < t.gates.len() && (#[trigger] t.gates[i]).id == id;
    assert(gate.id == id);
    lemma_with_gate_ok(t, resolved);
    let mid = with_gate(t, resolved);
    lemma_appended_ok(
        mid,
        Some(gate.work_item_id),
        actor,
        "gate_"@ + verdict,
        gate_payload(id, gate.action_kind, reason),
        now,
    );
    lemma_same_gates(mid, u, id);
}

/// The same gate table finds the same gate request.
pub proof fn lemma_gate_lookup(t: TablesView, u: TablesView, id: int)
    requires
        t.gates == u.gates,
    ensures
        gate_of(t, id) == gate_of(u, id),
{
    lemma_same_gates(t, u, id);
}

/// Where every reference names a work item, every pending request belongs to
/// one.
pub proof fn lemma_pending_items_exist(t: TablesView, work_item_id: Option<int>)
    requires
        references_ok(t),
    ensures
        forall|i: int|
            0 <= i < pending_of(t, work_item_id).len() ==> has_item(
                t,
                (#[trigger] pending_of(t, work_item_id)[i]).work_item_id,
            ),
{
    let keep = |g: GateView| is_pending(g, work_item_id);
    let pending = pending_of(t, work_item_id);
    assert forall|i: int| 0 <= i < pending.len() implies has_item(
        t,
        (#[trigger] pending[i]).work_item_id,
    ) by {
        lemma_filter_member(t.gates, keep, i);
        let k = choose|k: int| 0 <= k < t.gates.len() && #[trigger] t.gates[k] == pending[i];
        assert(has_item(t, t.gates[k].work_item_id));
    }
}

proof fn lemma_filter_member<A>(s: Seq<A>, keep: spec_fn(A) -> bool, i: int)
    requires
        0 <= i < s.filter(keep).len(),
    ensures
        exists|k: int| 0 <= k < s.len() && #[trigger] s[k] == s.filter(keep)[i],
    decreases s.len(),
{
    reveal(Seq::filter);
    if s.len() > 0 {
        let init = s.drop_last();
        if i < init.filter(keep).len() {
            lemma_filter_member(init, keep, i);
            let k = choose|k: int| 0 <= k < init.len() && #[trigger] init[k] == init.filter(keep)[i];
            assert(s[k] == init[k]);
        } else {
            assert(s[s.len() - 1] == s.last());
        }
    }
}

/// Queueing a gate request for an existing item succeeds while ids last.
pub proof fn lemma_request_succeeds(
    t: TablesView,
    work_item_id: int,
    action: Seq<char>,
    payload: JsonView,
    now: Seq<char>,
)
    requires
        tables_ok(t),
        has_item(t, work_item_id),
        next_gate_id(t) <= i64::MAX,
        next_event_id(t) <= i64::MAX,
    ensures
        gate_created(t, work_item_id, action, payload, now) matches Ok((u, id)) && id
            == next_gate_id(t) && u.items == t.items,
{
    let gate = GateView {
        id: next_gate_id(t),
        work_item_id,
        action_kind: action,
        payload,
        status: "pending"@,
        created_at: now,
        resolved_at: None,
        resolved_by: None,
    };
    lemma_items_kept(t, plus_gate(t, gate));
    assert(has_item(plus_gate(t, gate), work_item_id));
    assert(plus_gate(t, gate).events == t.events);
}

/// A change of state leaves every other work item, and the identity and the
/// recorded columns of the item itself, as they were.
pub proof fn lemma_state_change_is_local(
    t: TablesView,
    u: TablesView,
    id: int,
    state: Seq<char>,
    now: Seq<char>,
    other: int,
)
    requires
        tables_ok(t),
        state_updated(t, id, state, now) == Ok::<TablesView, StorageErrorView>(u),
    ensures
        item_of(t, id) matches Some(o) && item_of(u, id) == Some(
            ItemView { row: WorkItemView { state, updated_at: now, ..o.row }, ..o },
        ),
        other != id ==> item_of(u, other) == item_of(t, other),
        u.gates == t.gates,
        u.events.len() == t.events.len() + 1,
        tables_ok(u),
{
    let item = item_of(t, id)->0;
    let i = choose|i: int| 0 <= i < t.items.len() && (#[trigger] t.items[i]).row.id == id;
    let moved = ItemView { row: WorkItemView { state, updated_at: now, ..item.row }, ..item };
    assert(item.row.id == id);
    lemma_with_item_ok(t, moved);
    lemma_appended_ok(
        with_item(t, moved),
        Some(id),
        "system"@,
        "state_changed"@,
        state_payload(item.row.state, state),
        now,
    );
    lemma_same_items(with_item(t, moved), u, id);
    lemma_same_items(with_item(t, moved), u, other);
}

/// Setting a column of a work item leaves every other work item, the log and
/// all gate requests as they were.
pub proof fn lemma_field_set_is_local(
    t: TablesView,
    u: TablesView,
    id: int,
    field: ItemField,
    value: Seq<char>,
    now: Seq<char>,
    other: int,
)
    requires
        tables_ok(t),
        field_set(t, id, field, value, now) == Ok::<TablesView, StorageErrorView>(u),
    ensures
        tables_ok(u),
        item_of(t, id) matches Some(o) && item_of(u, id) == Some(item_with(o, field, value, now)),
        other != id ==> item_of(u, other) == item_of(t, other),
        u.events == t.events,
        u.gates == t.gates,
{
    let item = item_of(t, id)->0;
    let i = choose|i: int| 0 <= i < t.items.len() && (#[trigger] t.items[i]).row.id == id;
    assert(item.row.id == id);
    lemma_with_item_ok(t, item_with(item, field, value, now));
}

/// A new work item leaves every other work item, the log and all gate requests
/// as they were.
pub proof fn lemma_creation_is_local(
    t: TablesView,
    u: TablesView,
    provider: Seq<char>,
    ticket_key: Seq<char>,
    repo: Seq<char>,
    state: Seq<char>,
    now: Seq<char>,
    id: int,
    other: int,
)
    requires
        tables_ok(t),
        item_created(t, provider, ticket_key, repo, state, now) == Ok::<
            (TablesView, int),
            StorageErrorView,
        >((u, id)),
    ensures
        tables_ok(u),
        !has_item(t, id),
        item_of(u, id) == Some(u.items.last()),
        u.items.last().row.id == id,
        same_identity(u.items.last(), provider, ticket_key, repo),
        u.items.last().row.state == state,
        other != id ==> item_of(u, other) == item_of(t, other),
        u.events == t.events,
        u.gates == t.gates,
{
    lemma_plus_item_ok(t, u.items.last());
    assert(u == plus_item(t, u.items.last()));
    if other != id {
        if has_item(t, other) {
            let i = choose|i: int| 0 <= i < t.items.len() && (#[trigger] t.items[i]).row.id == other;
            lemma_item_of(t, i);
            assert(u.items[i] == t.items[i]);
            lemma_item_of(u, i);
        } else if has_item(u, other) {
            let i = choose|i: int| 0 <= i < u.items.len() && (#[trigger] u.items[i]).row.id == other;
            assert(i < t.items.len());
            assert(t.items[i].row.id == other);
        }
    }
}

/// Moving an existing item succeeds while event ids last.
pub proof fn lemma_state_update_succeeds(t: TablesView, id: int, state: Seq<char>, now: Seq<char>)
    requires
        tables_ok(t),
        has_item(t, id),
        next_event_id(t) <= i64::MAX,
    ensures
        state_updated(t, id, state, now) is Ok,
{
    let item = item_of(t, id)->0;
    let i = choose|i: int| 0 <= i < t.items.len() && (#[trigger] t.items[i]).row.id == id;
    let moved = ItemView { row: WorkItemView { state, updated_at: now, ..item.row }, ..item };
    assert(item.row.id == id);
    lemma_with_item_ok(t, moved);
    assert(has_item(with_item(t, moved), id));
    assert(with_item(t, moved).events == t.events);
}

/// A change of state appends exactly its own event to the log.
pub proof fn lemma_state_change_appends(
    t: TablesView,
    u: TablesView,
    id: int,
    state: Seq<char>,
    now: Seq<char>,
)
    requires
        state_updated(t, id, state, now) == Ok::<TablesView, StorageErrorView>(u),
    ensures
        u.events.drop_last() == t.events,
        u.events.len() == t.events.len() + 1,
        u.events.last().kind == "state_changed"@,
        u.events.last().work_item_id == Some(id),
        item_of(t, id) matches Some(o) && u.events.last().payload == state_payload(
            o.row.state,
            state,
        ),
{
}

// ---------------------------------------------------------------------------
// References

/// References stay good when no work item goes and every row that is new names
/// one.
proof fn lemma_references_kept(t: TablesView, u: TablesView)
    requires
        references_ok(t),
        forall|id: int| has_item(t, id) ==> #[trigger] has_item(u, id),
        forall|i: int|
            0 <= i < u.events.len() ==> (i < t.events.len() && #[trigger] u.events[i]
                == t.events[i]) || match u.events[i].work_item_id {
                Some(id) => has_item(u, id),
                None => true,
            },
        forall|i: int|
            0 <= i < u.gates.len() ==> (i < t.gates.len() && (#[trigger] u.gates[i]).work_item_id
                == t.gates[i].work_item_id) || has_item(u, u.gates[i].work_item_id),
    ensures
        references_ok(u),
{
    assert forall|i: int| 0 <= i < u.events.len() implies match (
    #[trigger] u.events[i]).work_item_id {
        Some(id) => has_item(u, id),
        None => true,
    } by {
        if i < t.events.len() && u.events[i] == t.events[i] {
            assert(u.events[i].work_item_id == t.events[i].work_item_id);
        }
    }
    assert forall|i: int| 0 <= i < u.gates.len() implies has_item(
        u,
        (#[trigger] u.gates[i]).work_item_id,
    ) by {
        if i < t.gates.len() && u.gates[i].work_item_id == t.gates[i].work_item_id {
            assert(has_item(t, t.gates[i].work_item_id));
        }
    }
}

/// An event is appended only for a work item that is there.
pub proof fn lemma_append_keeps_references(
    t: TablesView,
    u: TablesView,
    work_item_id: Option<int>,
    actor: Seq<char>,
    kind: Seq<char>,
    payload: JsonView,
    now: Seq<char>,
    id: int,
)
    requires
        references_ok(t),
        appended(t, work_item_id, actor, kind, payload, now) == Ok::<
            (TablesView, int),
            StorageErrorView,
        >((u, id)),
    ensures
        references_ok(u),
        work_item_id matches Some(item) ==> has_item(t, item),
{
    lemma_items_kept(t, u);
    lemma_references_kept(t, u);
}

/// A new work item takes nothing from those that are there.
pub proof fn lemma_creation_keeps_references(
    t: TablesView,
    u: TablesView,
    provider: Seq<char>,
    ticket_key: Seq<char>,
    repo: Seq<char>,
    state: Seq<char>,
    now: Seq<char>,
    id: int,
)
    requires
        references_ok(t),
        item_created(t, provider, ticket_key, repo, state, now) == Ok::<
            (TablesView, int),
            StorageErrorView,
        >((u, id)),
    ensures
        references_ok(u),
{
    lemma_items_kept(t, u);
    lemma_references_kept(t, u);
}

/// A change of state takes no work item away, and its event names one.
pub proof fn lemma_state_change_keeps_references(
    t: TablesView,
    u: TablesView,
    id: int,
    state: Seq<char>,
    now: Seq<char>,
)
    requires
        references_ok(t),
        state_updated(t, id, state, now) == Ok::<TablesView, StorageErrorView>(u),
    ensures
        references_ok(u),
{
    lemma_items_kept(t, u);
    lemma_references_kept(t, u);
}

/// Setting a column takes no work item away.
pub proof fn lemma_field_set_keeps_references(
    t: TablesView,
    u: TablesView,
    id: int,
    field: ItemField,
    value: Seq<char>,
    now: Seq<char>,
)
    requires
        references_ok(t),
        field_set(t, id, field, value, now) == Ok::<TablesView, StorageErrorView>(u),
    ensures
        references_ok(u),
{
    lemma_items_kept(t, u);
    lemma_references_kept(t, u);
}

/// A gate request is queued only for a work item that is there.
pub proof fn lemma_request_keeps_references(
    t: TablesView,
    u: TablesView,
    work_item_id: int,
    action: Seq<char>,
    payload: JsonView,
    now: Seq<char>,
    id: int,
)
    requires
        references_ok(t),
        gate_created(t, work_item_id, action, payload, now) == Ok::<
            (TablesView, int),
            StorageErrorView,
        >((u, id)),
    ensures
        references_ok(u),
        has_item(t, work_item_id),
{
    lemma_items_kept(t, u);
    lemma_references_kept(t, u);
}

/// A verdict is given only on a request whose work item is there.
pub proof fn lemma_verdict_keeps_references(
    t: TablesView,
    u: TablesView,
    id: int,
    verdict: Seq<char>,
    actor: Seq<char>,
    reason: Option<Seq<char>>,
    now: Seq<char>,
)
    requires
        tables_ok(t),
        references_ok(t),
        gate_resolved(t, id, verdict, actor, reason, now) == Ok::<TablesView, StorageErrorView>(u),
    ensures
        references_ok(u),
        gate_of(t, id) matches Some(gate) && has_item(t, gate.work_item_id),
{
    let gate = gate_of(t, id)->0;
    let k = choose|k: int| 0 <= k < t.gates.len() && (#[trigger] t.gates[k]).id == id;
    lemma_gate_of(t, k);
    assert(has_item(t, t.gates[k].work_item_id));
    lemma_items_kept(t, u);
    assert forall|i: int| 0 <= i < u.gates.len() implies (#[trigger] u.gates[i]).work_item_id
        == t.gates[i].work_item_id by {
        if t.gates[i].id == id {
            assert(i == k);
        }
    }
    lemma_references_kept(t, u);
}

/// What is saved is what is in memory: replaying the journal on the tables as
/// they were last saved gives the tables as they are.
pub proof fn lemma_saving_catches_up(saved: StorageView, current: StorageView)
    requires
        saved.journal.len() == 0,
        follows(saved, current),
    ensures
        replayed(saved.tables, current.journal) == current.tables,
{
    assert(current.journal.skip(0) == current.journal);
}

} // verus!
