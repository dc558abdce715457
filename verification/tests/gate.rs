use yardmaster::gate::{Decision, GateEngine, GateLevel, GatePolicy, GatedAction};
use yardmaster::json::{Fields, Json};
use yardmaster::storage::{Snapshot, Storage, StorageError, SCHEMA_VERSION};

fn open_temp() -> Storage {
    let rows = Snapshot {
        items: Vec::new(),
        events: Vec::new(),
        gates: Vec::new(),
        last_event: 0,
    };
    Storage::open(SCHEMA_VERSION, rows).expect("open")
}

fn work_item(storage: &mut Storage, key: &str) -> i64 {
    storage
        .create_work_item("github", key, "app", "developing")
        .expect("create work item")
}

fn empty() -> Json {
    Fields::new().done()
}

#[test]
fn default_classification_and_decisions() {
    let policy = GatePolicy::default();
    for action in [GatedAction::PushBranch, GatedAction::ForcePushBranch] {
        assert_eq!(policy.level(action), GateLevel::RemotePrivate);
        assert_eq!(policy.decision(action), Decision::AutoNotify);
    }
    for action in [
        GatedAction::CreatePr,
        GatedAction::EditPr,
        GatedAction::PostComment,
        GatedAction::ReplyReview,
        GatedAction::Merge,
        GatedAction::TrackerTransition,
    ] {
        assert_eq!(policy.level(action), GateLevel::Public);
        assert_eq!(policy.decision(action), Decision::RequireApproval);
    }
    assert_eq!(GateLevel::Local.decision(), Decision::Auto);
}

#[test]
fn action_strings_round_trip() {
    for action in GatedAction::ALL {
        assert_eq!(action.as_str().parse::<GatedAction>(), Ok(action));
        let value = serde_json::Value::String(action.as_str().to_owned());
        assert_eq!(
            GatedAction::parse(value.as_str().expect("text")),
            Ok(action)
        );
    }
    assert!("CreatePr".parse::<GatedAction>().is_err());
}

#[test]
fn unlocked_policy_honors_public_downgrade() {
    let policy = GatePolicy::new(false, vec![(GatedAction::Merge, GateLevel::RemotePrivate)]);
    assert_eq!(policy.level(GatedAction::Merge), GateLevel::RemotePrivate);
    assert_eq!(policy.decision(GatedAction::Merge), Decision::AutoNotify);
    // Untouched actions keep their defaults.
    assert_eq!(policy.level(GatedAction::CreatePr), GateLevel::Public);
}

#[test]
fn locked_policy_clamps_every_public_downgrade() {
    let policy = GatePolicy::new(
        true,
        vec![
            (GatedAction::Merge, GateLevel::Local),
            (GatedAction::CreatePr, GateLevel::RemotePrivate),
            (GatedAction::PostComment, GateLevel::Public),
            (GatedAction::PushBranch, GateLevel::Local),
            (GatedAction::ForcePushBranch, GateLevel::Public),
        ],
    );
    assert_eq!(policy.level(GatedAction::Merge), GateLevel::Public);
    assert_eq!(
        policy.decision(GatedAction::Merge),
        Decision::RequireApproval
    );
    assert_eq!(policy.level(GatedAction::CreatePr), GateLevel::Public);
    assert_eq!(policy.level(GatedAction::PostComment), GateLevel::Public);
    assert_eq!(policy.level(GatedAction::PushBranch), GateLevel::Local);
    assert_eq!(
        policy.level(GatedAction::ForcePushBranch),
        GateLevel::Public
    );
}

#[test]
fn request_persists_payload_and_event() {
    let mut storage = open_temp();
    let item = work_item(&mut storage, "acme/app#1");
    let payload = Fields::new()
        .with("body", Json::text("long body"))
        .with("title", Json::text("feat: x"))
        .done();
    let gate_id = GateEngine::new(&mut storage)
        .request(item, GatedAction::CreatePr, &payload)
        .unwrap();

    let pending = storage.pending_gate_requests(Some(item)).unwrap();
    assert_eq!(pending.len(), 1);
    assert_eq!(pending[0].id, gate_id);
    assert_eq!(pending[0].action_kind, "create_pr");
    assert_eq!(pending[0].payload, payload);
    assert_eq!(pending[0].status, "pending");
    assert_eq!(pending[0].resolved_by, None);

    let events = storage.events(Some(item)).unwrap();
    assert_eq!(events.len(), 1);
    assert_eq!(events[0].kind, "gate_requested");
    assert_eq!(
        events[0].payload,
        Fields::new()
            .with("action", Json::text("create_pr"))
            .with("gate_id", Json::from_i64(gate_id))
            .done()
    );
}

#[test]
fn request_for_missing_work_item_fails() {
    let mut storage = open_temp();
    assert!(matches!(
        GateEngine::new(&mut storage).request(42, GatedAction::Merge, &empty()),
        Err(StorageError::WorkItemNotFound(42))
    ));
    assert!(storage.events(None).unwrap().is_empty());
}

#[test]
fn approve_lifecycle_records_verdict_and_event() {
    let mut storage = open_temp();
    let item = work_item(&mut storage, "acme/app#1");
    let mut engine = GateEngine::new(&mut storage);
    let payload = Fields::new().with("method", Json::text("squash")).done();
    let gate_id = engine.request(item, GatedAction::Merge, &payload).unwrap();
    engine.approve(gate_id, "jeremy").unwrap();
    assert!(engine.pending(None).unwrap().is_empty());

    let row = storage.get_gate_request(gate_id).unwrap();
    assert_eq!(row.status, "approved");
    assert_eq!(row.resolved_by.as_deref(), Some("jeremy"));
    assert!(row.resolved_at.is_some());

    let events = storage.events(Some(item)).unwrap();
    let approved = events
        .iter()
        .find(|e| e.kind == "gate_approved")
        .expect("event");
    assert_eq!(approved.actor, "jeremy");
    assert_eq!(
        approved.payload,
        Fields::new()
            .with("action", Json::text("merge"))
            .with("gate_id", Json::from_i64(gate_id))
            .done()
    );
}

#[test]
fn reject_records_reason() {
    let mut storage = open_temp();
    let item = work_item(&mut storage, "acme/app#1");
    let mut engine = GateEngine::new(&mut storage);
    let payload = Fields::new().with("body", Json::text("hi")).done();
    let gate_id = engine
        .request(item, GatedAction::PostComment, &payload)
        .unwrap();
    engine.reject(gate_id, "jeremy", "tone is off").unwrap();

    let row = storage.get_gate_request(gate_id).unwrap();
    assert_eq!(row.status, "rejected");
    let events = storage.events(Some(item)).unwrap();
    let rejected = events
        .iter()
        .find(|e| e.kind == "gate_rejected")
        .expect("event");
    assert_eq!(
        rejected.payload,
        Fields::new()
            .with("action", Json::text("post_comment"))
            .with("gate_id", Json::from_i64(gate_id))
            .with("reason", Json::text("tone is off"))
            .done()
    );
}

#[test]
fn double_resolve_is_rejected() {
    let mut storage = open_temp();
    let item = work_item(&mut storage, "acme/app#1");
    let mut engine = GateEngine::new(&mut storage);
    let gate_id = engine.request(item, GatedAction::Merge, &empty()).unwrap();
    engine.approve(gate_id, "jeremy").unwrap();

    for result in [
        engine.approve(gate_id, "jeremy"),
        engine.reject(gate_id, "jeremy", "no"),
    ] {
        match result {
            Err(StorageError::GateRequestNotPending { id, ref status }) => {
                assert_eq!(id, gate_id);
                assert_eq!(status, "approved");
            }
            other => panic!("expected GateRequestNotPending, got {other:?}"),
        }
    }
    assert!(matches!(
        engine.approve(999, "jeremy"),
        Err(StorageError::GateRequestNotFound(999))
    ));
    // Exactly one resolution event survived.
    let events = storage.events(Some(item)).unwrap();
    assert_eq!(
        events
            .iter()
            .filter(|e| e.kind.starts_with("gate_"))
            .count(),
        2
    );
}

#[test]
fn pending_filters_by_work_item() {
    let mut storage = open_temp();
    let a = work_item(&mut storage, "acme/app#1");
    let b = work_item(&mut storage, "acme/app#2");
    let mut engine = GateEngine::new(&mut storage);
    let first = engine.request(a, GatedAction::CreatePr, &empty()).unwrap();
    let second = engine.request(b, GatedAction::Merge, &empty()).unwrap();
    engine
        .request(a, GatedAction::PostComment, &empty())
        .unwrap();
    engine.reject(first, "jeremy", "redo").unwrap();

    let all: Vec<i64> = engine.pending(None).unwrap().iter().map(|r| r.id).collect();
    assert_eq!(all.len(), 2);
    let for_a = engine.pending(Some(a)).unwrap();
    assert_eq!(for_a.len(), 1);
    assert_eq!(for_a[0].action_kind, "post_comment");
    let for_b = engine.pending(Some(b)).unwrap();
    assert_eq!(for_b.len(), 1);
    assert_eq!(for_b[0].id, second);
}

#[test]
fn level_names_and_parse_errors_are_spelled_out() {
    assert_eq!(GateLevel::Local.as_str(), "local");
    assert_eq!(GateLevel::RemotePrivate.as_str(), "remote_private");
    assert_eq!(GateLevel::Public.as_str(), "public");
    let err = GatedAction::parse("nope").expect_err("unknown");
    assert!(err.message().contains("nope"), "{}", err.message());
}

#[test]
fn policies_and_parse_errors_are_cloned_whole() {
    let policy = GatePolicy::new(true, vec![(GatedAction::PushBranch, GateLevel::Public)]);
    let copy = policy.clone();
    assert_eq!(copy.level(GatedAction::PushBranch), GateLevel::Public);
    assert_eq!(copy.level(GatedAction::Merge), GateLevel::Public);
    let unknown = "CreatePr".parse::<GatedAction>().unwrap_err();
    assert_eq!(unknown.clone(), unknown);
}
