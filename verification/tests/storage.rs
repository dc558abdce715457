use yardmaster::clock::{now_rfc3339, rfc3339_from_unix};
use yardmaster::json::{Fields, Json};
use yardmaster::storage::{
    migrate, Change, EventRow, GateRequestRow, ItemRecord, Snapshot, Storage, StorageError,
    WorkItemRow,
    MIGRATION_1, MIGRATION_2, SCHEMA_VERSION,
};

const NOW: &str = "2026-01-02T03:04:05Z";

fn no_rows() -> Snapshot {
    Snapshot {
        items: Vec::new(),
        events: Vec::new(),
        gates: Vec::new(),
        last_event: 0,
    }
}

fn open_temp() -> Storage {
    Storage::open(SCHEMA_VERSION, no_rows()).expect("open")
}

fn empty() -> Json {
    Fields::new().done()
}

/// Applies row changes to the rows of a database.
fn save(rows: &mut Snapshot, changes: Vec<Change>) {
    for change in changes {
        match change {
            Change::InsertItem(item) => rows.items.push(item),
            Change::UpdateItem(item) => {
                let i = rows
                    .items
                    .iter()
                    .position(|r| r.row.id == item.row.id)
                    .expect("row");
                rows.items[i] = item;
            }
            Change::InsertEvent(event) => rows.events.push(event),
            Change::InsertGate(gate) => rows.gates.push(gate),
            Change::UpdateGate(gate) => {
                let i = rows.gates.iter().position(|r| r.id == gate.id).expect("row");
                rows.gates[i] = gate;
            }
        }
    }
}

fn item(id: i64, key: &str) -> ItemRecord {
    ItemRecord {
        row: WorkItemRow {
            id,
            provider: "jira".to_owned(),
            ticket_key: key.to_owned(),
            repo: "backend".to_owned(),
            state: "new".to_owned(),
            branch: None,
            worktree_path: None,
            pr_ref: None,
            created_at: NOW.to_owned(),
            updated_at: NOW.to_owned(),
        },
        agent_session: None,
    }
}

fn gate(id: i64, work_item_id: i64, status: &str) -> GateRequestRow {
    GateRequestRow {
        id,
        work_item_id,
        action_kind: "publish_pr".to_owned(),
        payload: empty(),
        status: status.to_owned(),
        created_at: NOW.to_owned(),
        resolved_at: None,
        resolved_by: None,
    }
}

#[test]
fn migrations_lead_to_the_current_version() {
    assert_eq!(migrate(0), Ok(vec![(1, MIGRATION_1), (2, MIGRATION_2)]));
    assert_eq!(migrate(1), Ok(vec![(2, MIGRATION_2)]));
    assert_eq!(migrate(SCHEMA_VERSION), Ok(Vec::new()));
    assert_eq!(
        migrate(99),
        Err(StorageError::UnsupportedVersion {
            found: 99,
            supported: 2
        })
    );
}

#[test]
fn v1_database_migrates_and_gains_agent_session() {
    let steps = migrate(1).unwrap();
    assert!(steps[0].1.contains("agent_session"));
    let mut storage = Storage::open(steps[steps.len() - 1].0, no_rows()).unwrap();
    let id = storage
        .create_work_item("gh", "acme/app#1", "backend", "tracked")
        .unwrap();
    assert_eq!(storage.work_item_agent_session(id).unwrap(), None);
    storage.set_work_item_agent_session(id, "abc123").unwrap();
    assert_eq!(
        storage.work_item_agent_session(id).unwrap().as_deref(),
        Some("abc123")
    );
}

#[test]
fn agent_session_round_trips_and_missing_item_errors() {
    let mut storage = open_temp();
    let id = storage
        .create_work_item("gh", "acme/app#2", "backend", "tracked")
        .unwrap();
    assert_eq!(storage.work_item_agent_session(id).unwrap(), None);
    storage.set_work_item_agent_session(id, "s-1").unwrap();
    assert_eq!(
        storage.work_item_agent_session(id).unwrap().as_deref(),
        Some("s-1")
    );
    assert!(matches!(
        storage.work_item_agent_session(id + 1),
        Err(StorageError::WorkItemNotFound(_))
    ));
    assert!(matches!(
        storage.set_work_item_agent_session(id + 1, "x"),
        Err(StorageError::WorkItemNotFound(_))
    ));
}

#[test]
fn open_rejects_future_schema_version() {
    assert!(matches!(
        Storage::open(99, no_rows()),
        Err(StorageError::UnsupportedVersion { found: 99, .. })
    ));
}

#[test]
fn open_refuses_rows_that_break_the_schema() {
    let mut twice = no_rows();
    twice.items = vec![item(1, "ZEE-1"), item(2, "ZEE-1")];
    let mut unordered = no_rows();
    unordered.items = vec![item(2, "ZEE-1"), item(1, "ZEE-2")];
    for rows in [twice, unordered] {
        match Storage::open(SCHEMA_VERSION, rows) {
            Err(StorageError::Sqlite(m)) => assert_eq!(m, "database disk image is malformed"),
            _ => panic!("must be refused"),
        }
    }
}

#[test]
fn references_are_checked_on_writes_only() {
    let mut orphans = no_rows();
    orphans.gates = vec![gate(1, 7, "pending")];
    orphans.events = vec![EventRow {
        id: 1,
        work_item_id: Some(7),
        ts: NOW.to_owned(),
        actor: "agent".to_owned(),
        kind: "started".to_owned(),
        payload: empty(),
    }];
    let mut storage = Storage::open(SCHEMA_VERSION, orphans).unwrap();
    assert_eq!(storage.events(Some(7)).unwrap().len(), 1);
    assert_eq!(storage.count_pending_gates(7).unwrap(), 1);
    assert_eq!(storage.pending_gate_requests(None).unwrap().len(), 1);
    assert_eq!(storage.get_gate_request(1).unwrap().work_item_id, 7);

    let refused = || Err(StorageError::Sqlite("FOREIGN KEY constraint failed".to_owned()));
    assert_eq!(
        storage.resolve_gate_request(1, "approved", "human", None),
        refused()
    );
    assert_eq!(storage.get_gate_request(1).unwrap().status, "pending");
    assert!(storage
        .append_event(Some(7), "agent", "started", &empty())
        .is_err());
    assert!(storage.take_changes().is_empty());
}

#[test]
fn event_ids_are_not_given_again() {
    let mut rows = no_rows();
    rows.last_event = 9;
    let mut storage = Storage::open(SCHEMA_VERSION, rows).unwrap();
    let next = |storage: &mut Storage| storage.append_event(None, "daemon", "boot", &empty());
    assert_eq!(next(&mut storage), Ok(10));
    assert_eq!(next(&mut storage), Ok(11));
}

#[test]
fn rows_are_cloned_whole() {
    let record = item(1, "ZEE-1");
    assert_eq!(record.row.clone(), record.row);
    let request = gate(1, 1, "pending");
    assert_eq!(request.clone(), request);
    assert_ne!(request.clone(), gate(2, 1, "pending"));
}

#[test]
fn rows_survive_reopen() {
    let mut rows = no_rows();
    let id = {
        let mut storage = open_temp();
        let id = storage
            .create_work_item("jira", "ZEE-1", "backend", "new")
            .unwrap();
        let via = Fields::new().with("via", Json::text("test")).done();
        storage
            .append_event(Some(id), "daemon", "created", &via)
            .unwrap();
        save(&mut rows, storage.take_changes());
        assert!(storage.take_changes().is_empty());
        id
    };
    let storage = Storage::open(SCHEMA_VERSION, rows).unwrap();
    let items = storage.list_work_items().unwrap();
    assert_eq!(items.len(), 1);
    assert_eq!(items[0].id, id);
    assert_eq!(items[0].ticket_key, "ZEE-1");
    assert_eq!(storage.events(Some(id)).unwrap().len(), 1);
}

#[test]
fn saved_changes_rebuild_the_tables() {
    let mut rows = no_rows();
    let mut storage = open_temp();
    let id = storage
        .create_work_item("jira", "ZEE-1", "backend", "new")
        .unwrap();
    save(&mut rows, storage.take_changes());
    storage.update_work_item_state(id, "developing").unwrap();
    storage.set_work_item_branch(id, "feature/x").unwrap();
    let first = storage.create_gate_request(id, "merge", &empty()).unwrap();
    storage
        .resolve_gate_request(first, "approved", "human", None)
        .unwrap();
    save(&mut rows, storage.take_changes());

    let reopened = Storage::open(SCHEMA_VERSION, rows).unwrap();
    assert_eq!(
        reopened.list_work_items().unwrap(),
        storage.list_work_items().unwrap()
    );
    assert_eq!(reopened.events(None).unwrap(), storage.events(None).unwrap());
    assert_eq!(
        reopened.get_gate_request(first).unwrap(),
        storage.get_gate_request(first).unwrap()
    );
}

#[test]
fn append_event_round_trips_and_filters() {
    let mut storage = open_temp();
    let a = storage
        .create_work_item("jira", "ZEE-1", "backend", "new")
        .unwrap();
    let b = storage
        .create_work_item("jira", "ZEE-2", "backend", "new")
        .unwrap();
    let nested = Fields::new().with("ok", Json::Bool(true)).done();
    let payload = Fields::new()
        .with("n", Json::from_i64(1))
        .with("nested", nested)
        .done();
    storage
        .append_event(Some(a), "agent", "started", &payload)
        .unwrap();
    let second = Fields::new().with("n", Json::from_i64(2)).done();
    storage
        .append_event(Some(b), "agent", "started", &second)
        .unwrap();
    storage
        .append_event(None, "daemon", "boot", &empty())
        .unwrap();

    let for_a = storage.events(Some(a)).unwrap();
    assert_eq!(for_a.len(), 1);
    assert_eq!(for_a[0].work_item_id, Some(a));
    assert_eq!(for_a[0].actor, "agent");
    assert_eq!(for_a[0].kind, "started");
    assert_eq!(for_a[0].payload, payload);
    assert!(for_a[0].ts.ends_with('Z'));

    let all = storage.events(None).unwrap();
    assert_eq!(all.len(), 3);
    assert_eq!(all[2].work_item_id, None);
}

#[test]
fn append_event_enforces_work_item_fk() {
    let mut storage = open_temp();
    assert!(storage
        .append_event(Some(999), "agent", "started", &empty())
        .is_err());
    assert!(storage.events(None).unwrap().is_empty());
}

#[test]
fn state_change_writes_exactly_one_event_atomically() {
    let mut storage = open_temp();
    let id = storage
        .create_work_item("jira", "ZEE-1", "backend", "new")
        .unwrap();
    storage.update_work_item_state(id, "in_progress").unwrap();

    let items = storage.list_work_items().unwrap();
    assert_eq!(items[0].state, "in_progress");
    let events = storage.events(Some(id)).unwrap();
    assert_eq!(events.len(), 1);
    assert_eq!(events[0].kind, "state_changed");
    assert_eq!(
        events[0].payload,
        Fields::new()
            .with("new", Json::text("in_progress"))
            .with("old", Json::text("new"))
            .done()
    );
}

#[test]
fn state_change_rolls_back_on_constraint_failure() {
    let mut storage = open_temp();
    let id = storage
        .create_work_item("jira", "ZEE-1", "backend", "new")
        .unwrap();
    assert!(matches!(
        storage.update_work_item_state(id + 1, "in_progress"),
        Err(StorageError::WorkItemNotFound(_))
    ));
    assert!(storage.events(None).unwrap().is_empty());
    assert_eq!(storage.list_work_items().unwrap()[0].state, "new");
}

#[test]
fn work_item_identity_is_unique() {
    let mut storage = open_temp();
    storage
        .create_work_item("jira", "ZEE-1", "backend", "new")
        .unwrap();
    assert!(storage
        .create_work_item("jira", "ZEE-1", "backend", "new")
        .is_err());
    // Same ticket in another repo is a distinct work item.
    storage
        .create_work_item("jira", "ZEE-1", "frontend", "new")
        .unwrap();
    assert_eq!(storage.list_work_items().unwrap().len(), 2);
}

#[test]
fn count_pending_gates_counts_only_pending() {
    let mut rows = no_rows();
    rows.items = vec![item(1, "ZEE-1")];
    rows.gates = vec![
        gate(1, 1, "pending"),
        gate(2, 1, "pending"),
        gate(3, 1, "approved"),
    ];
    let storage = Storage::open(SCHEMA_VERSION, rows).unwrap();
    assert_eq!(storage.count_pending_gates(1).unwrap(), 2);
    assert_eq!(storage.count_pending_gates(2).unwrap(), 0);
}

#[test]
fn field_setters_update_row_and_reject_missing_item() {
    let mut storage = open_temp();
    let id = storage
        .create_work_item("github", "acme/app#1", "app", "developing")
        .unwrap();
    storage.set_work_item_branch(id, "feat/app-1").unwrap();
    storage.set_work_item_worktree(id, "/tmp/wt/app-1").unwrap();
    storage.set_work_item_pr_ref(id, "acme/app#12").unwrap();
    let row = storage.get_work_item(id).unwrap();
    assert_eq!(row.branch.as_deref(), Some("feat/app-1"));
    assert_eq!(row.worktree_path.as_deref(), Some("/tmp/wt/app-1"));
    assert_eq!(row.pr_ref.as_deref(), Some("acme/app#12"));

    assert!(matches!(
        storage.set_work_item_branch(999, "x"),
        Err(StorageError::WorkItemNotFound(999))
    ));
    assert!(matches!(
        storage.get_work_item(999),
        Err(StorageError::WorkItemNotFound(999))
    ));
}

#[test]
fn rfc3339_formatting() {
    assert_eq!(rfc3339_from_unix(0), "1970-01-01T00:00:00Z");
    assert_eq!(rfc3339_from_unix(1_700_000_000), "2023-11-14T22:13:20Z");
    // Leap day.
    assert_eq!(rfc3339_from_unix(1_582_934_400), "2020-02-29T00:00:00Z");
    assert!(now_rfc3339().len() == 20);
}

#[test]
fn stamped_operations_use_the_given_time() {
    let mut storage = open_temp();
    let id = storage
        .create_work_item_at("gh", "a/b#1", "app", "tracked", NOW)
        .unwrap();
    let later = "2026-02-02T03:04:05Z";
    storage
        .update_work_item_state_at(id, "queued", later)
        .unwrap();
    let row = storage.get_work_item(id).unwrap();
    assert_eq!(row.created_at, NOW);
    assert_eq!(row.updated_at, later);
    assert_eq!(storage.events(None).unwrap()[0].ts, later);
}

#[test]
fn storage_errors_are_spelled_out() {
    assert!(StorageError::WorkItemNotFound(7).message().contains('7'));
    assert!(StorageError::GateRequestNotFound(8).message().contains('8'));
    let message = StorageError::GateRequestNotPending {
        id: 9,
        status: "approved".to_owned(),
    }
    .message();
    assert!(message.contains('9') && message.contains("approved"));
}
