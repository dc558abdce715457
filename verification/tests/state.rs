use yardmaster::adapters::{Ticket, TicketKey};
use yardmaster::json::Json;
use yardmaster::state::{
    assignee_violation, can_transition, enforce_assignee, legal_transitions, WorkflowState,
};
use yardmaster::storage::{Snapshot, Storage, StorageError, SCHEMA_VERSION};

fn ticket(assignee: Option<&str>) -> Ticket {
    Ticket {
        key: TicketKey {
            provider: "github".into(),
            key: "acme/app#7".into(),
        },
        title: "t".into(),
        body: String::new(),
        status: "open".into(),
        assignee: assignee.map(str::to_owned),
        url: "https://example.invalid".into(),
        blocked_by: Vec::new(),
    }
}

fn open_temp() -> Storage {
    let rows = Snapshot {
        items: Vec::new(),
        events: Vec::new(),
        gates: Vec::new(),
        last_event: 0,
    };
    Storage::open(SCHEMA_VERSION, rows).expect("open")
}

#[test]
fn happy_path_is_legal() {
    let chain = [
        WorkflowState::Known,
        WorkflowState::Queued,
        WorkflowState::Developing,
        WorkflowState::PrPending,
        WorkflowState::CiWatch,
        WorkflowState::AwaitingReview,
        WorkflowState::Mergeable,
        WorkflowState::Merging,
        WorkflowState::Merged,
        WorkflowState::Done,
    ];
    for pair in chain.windows(2) {
        assert!(
            can_transition(pair[0], pair[1]),
            "{} -> {} must be legal",
            pair[0].as_str(),
            pair[1].as_str()
        );
    }
    assert!(can_transition(WorkflowState::Known, WorkflowState::Groomed));
    assert!(can_transition(WorkflowState::Groomed, WorkflowState::Queued));
}

#[test]
fn feedback_loops_are_legal() {
    for (from, to) in [
        (WorkflowState::PrPending, WorkflowState::Addressing),
        (WorkflowState::CiWatch, WorkflowState::Addressing),
        (WorkflowState::AwaitingReview, WorkflowState::Addressing),
        (WorkflowState::Addressing, WorkflowState::Developing),
        (WorkflowState::Addressing, WorkflowState::Mergeable),
    ] {
        assert!(
            can_transition(from, to),
            "{} -> {} must be legal",
            from.as_str(),
            to.as_str()
        );
    }
}

#[test]
fn illegal_transitions_are_rejected() {
    for (from, to) in [
        (WorkflowState::Known, WorkflowState::Developing),
        (WorkflowState::Queued, WorkflowState::Merged),
        (WorkflowState::Developing, WorkflowState::Merging),
        (WorkflowState::Merged, WorkflowState::Blocked),
        (WorkflowState::Merged, WorkflowState::Escalated),
        (WorkflowState::Done, WorkflowState::Known),
        (WorkflowState::Done, WorkflowState::Blocked),
        (WorkflowState::Blocked, WorkflowState::Done),
        (WorkflowState::Escalated, WorkflowState::Merged),
    ] {
        assert!(
            !can_transition(from, to),
            "{} -> {} must be illegal",
            from.as_str(),
            to.as_str()
        );
    }
    for state in WorkflowState::ALL {
        assert!(
            !can_transition(state, state),
            "{} self-loop must be illegal",
            state.as_str()
        );
    }
}

#[test]
fn blocked_and_escalated_reachable_from_any_non_terminal() {
    for from in WorkflowState::ALL {
        if from.is_terminal() {
            assert!(!can_transition(from, WorkflowState::Blocked));
            assert!(!can_transition(from, WorkflowState::Escalated));
            continue;
        }
        if from != WorkflowState::Blocked {
            assert!(
                can_transition(from, WorkflowState::Blocked),
                "{} -> blocked",
                from.as_str()
            );
        }
        if from != WorkflowState::Escalated {
            assert!(
                can_transition(from, WorkflowState::Escalated),
                "{} -> escalated",
                from.as_str()
            );
        }
    }
}

#[test]
fn snake_case_round_trips_str_and_serde() {
    for state in WorkflowState::ALL {
        assert_eq!(state.as_str().parse::<WorkflowState>(), Ok(state));
        let value = serde_json::Value::String(state.as_str().to_owned());
        assert_eq!(
            WorkflowState::parse(value.as_str().expect("text")),
            Ok(state)
        );
    }
    assert!("PrPending".parse::<WorkflowState>().is_err());
    assert!("".parse::<WorkflowState>().is_err());
    assert_eq!(WorkflowState::Known.as_str(), "tracked");
}

#[test]
fn transitions_are_listed() {
    assert!(legal_transitions(WorkflowState::Done).is_empty());
    assert_eq!(
        legal_transitions(WorkflowState::Merged),
        &[WorkflowState::Done]
    );
    for from in WorkflowState::ALL {
        for to in WorkflowState::ALL {
            assert_eq!(
                can_transition(from, to),
                legal_transitions(from).contains(&to)
            );
        }
    }
}

#[test]
fn storage_round_trips_state_strings() {
    let mut storage = open_temp();
    let id = storage
        .create_work_item("github", "acme/app#7", "app", WorkflowState::Known.as_str())
        .unwrap();
    storage
        .update_work_item_state(id, WorkflowState::Developing.as_str())
        .unwrap();
    let row = storage.get_work_item(id).unwrap();
    assert_eq!(
        row.state.parse::<WorkflowState>(),
        Ok(WorkflowState::Developing)
    );
}

#[test]
fn assignee_violation_cases() {
    assert_eq!(assignee_violation(&ticket(Some("me")), "me"), None);
    assert!(assignee_violation(&ticket(None), "me")
        .unwrap()
        .contains("unassigned"));
    assert!(assignee_violation(&ticket(Some("alice")), "me")
        .unwrap()
        .contains("alice"));
}

#[test]
fn enforce_assignee_blocks_reassigned_item_once() {
    let mut storage = open_temp();
    let id = storage
        .create_work_item(
            "github",
            "acme/app#7",
            "app",
            WorkflowState::Developing.as_str(),
        )
        .unwrap();

    // Assigned to me: no-op on every sync.
    assert!(!enforce_assignee(&mut storage, id, &ticket(Some("me")), "me").unwrap());
    assert!(storage.events(Some(id)).unwrap().is_empty());

    // Reassigned mid-flight: block + audit trail.
    assert!(enforce_assignee(&mut storage, id, &ticket(Some("alice")), "me").unwrap());
    let row = storage.get_work_item(id).unwrap();
    assert_eq!(row.state, WorkflowState::Blocked.as_str());
    let events = storage.events(Some(id)).unwrap();
    let violation = events
        .iter()
        .find(|e| e.kind == "assignee_violation")
        .expect("assignee_violation event");
    assert_eq!(violation.payload.get("assignee"), Some(&Json::text("alice")));
    assert_eq!(violation.payload.get("me"), Some(&Json::text("me")));
    assert!(events.iter().any(|e| e.kind == "state_changed"));

    // Next sync: already blocked, idempotent — no duplicate events.
    let count = events.len();
    assert!(!enforce_assignee(&mut storage, id, &ticket(Some("alice")), "me").unwrap());
    assert_eq!(storage.events(Some(id)).unwrap().len(), count);
}

#[test]
fn enforce_assignee_blocks_unassigned_but_skips_terminal() {
    let mut storage = open_temp();
    let unassigned = storage
        .create_work_item("github", "acme/app#1", "app", WorkflowState::Queued.as_str())
        .unwrap();
    assert!(enforce_assignee(&mut storage, unassigned, &ticket(None), "me").unwrap());
    assert_eq!(
        storage.get_work_item(unassigned).unwrap().state,
        WorkflowState::Blocked.as_str()
    );

    let done = storage
        .create_work_item("github", "acme/app#2", "app", WorkflowState::Done.as_str())
        .unwrap();
    assert!(!enforce_assignee(&mut storage, done, &ticket(Some("alice")), "me").unwrap());
    assert_eq!(
        storage.get_work_item(done).unwrap().state,
        WorkflowState::Done.as_str()
    );
    assert!(storage.events(Some(done)).unwrap().is_empty());
}

#[test]
fn enforce_assignee_missing_item_is_not_found() {
    let mut storage = open_temp();
    assert!(matches!(
        enforce_assignee(&mut storage, 999, &ticket(None), "me"),
        Err(StorageError::WorkItemNotFound(999))
    ));
}
