use yardmaster::adapters::{
    AdapterError, AgentStatus, PrDraft, PrRef, Secret, Ticket, TicketKey, TokenUsage,
};
use yardmaster::json::{Fields, Json};

fn draft() -> PrDraft {
    PrDraft {
        repo: "acme/app".to_owned(),
        title: "feat: x".to_owned(),
        body: "body".to_owned(),
        base: "main".to_owned(),
        head: "feature/x".to_owned(),
        draft: true,
    }
}

#[test]
fn secret_never_leaks_in_debug() {
    let s = Secret::new("hunter2".into());
    assert_eq!(s.debug(), "Secret(***)");
    assert_eq!(s.expose(), "hunter2");
    assert_eq!(s.clone().expose(), "hunter2");
}

#[test]
fn error_messages_name_their_kind() {
    assert_eq!(
        AdapterError::Transient("timeout".to_owned()).message(),
        "transient adapter error: timeout"
    );
    assert_eq!(
        AdapterError::Permanent("no".to_owned()).message(),
        "permanent adapter error: no"
    );
}

#[test]
fn drafts_survive_their_payload() {
    let payload = draft().to_json();
    assert_eq!(PrDraft::from_json(&payload), Ok(draft()));
    assert_eq!(payload.get("head"), Some(&Json::text("feature/x")));
}

#[test]
fn broken_draft_payloads_say_what_is_wrong() {
    assert_eq!(
        PrDraft::from_json(&Fields::new().done()),
        Err("missing field `repo`".to_owned())
    );
    let wrong = Fields::new().with("repo", Json::Bool(true)).done();
    assert_eq!(
        PrDraft::from_json(&wrong),
        Err("invalid type: boolean `true`, expected a string".to_owned())
    );
    let late = Fields::new()
        .with("base", Json::text("main"))
        .with("body", Json::text("b"))
        .with("draft", Json::text("yes"))
        .with("head", Json::text("h"))
        .with("repo", Json::text("r"))
        .with("title", Json::text("t"))
        .done();
    assert_eq!(
        PrDraft::from_json(&late),
        Err("invalid type: string \"yes\", expected a boolean".to_owned())
    );
    let complaint = |j: Json| PrDraft::from_json(&j).unwrap_err();
    assert_eq!(
        complaint(Json::Null),
        "invalid type: null, expected struct PrDraft"
    );
    assert_eq!(
        complaint(Json::Int(-7)),
        "invalid type: integer `-7`, expected struct PrDraft"
    );
    assert_eq!(
        complaint(Json::Float("1.5".to_owned())),
        "invalid type: floating point `1.5`, expected struct PrDraft"
    );
    // a mistyped member is found before a missing one
    assert_eq!(
        complaint(Fields::new().with("title", Json::List(vec![])).done()),
        "invalid type: sequence, expected a string"
    );
    assert_eq!(
        complaint(
            Fields::new()
                .with("repo", Json::text("r"))
                .with("unknown", Json::Null)
                .done()
        ),
        "missing field `title`"
    );
}

#[test]
fn a_draft_may_be_a_list_of_its_fields() {
    let fields = |n: usize| {
        let all = vec![
            Json::text("r"),
            Json::text("t"),
            Json::text("b"),
            Json::text("main"),
            Json::text("h"),
            Json::Bool(true),
            Json::Null,
        ];
        Json::List(all.into_iter().take(n).collect())
    };
    let draft = PrDraft::from_json(&fields(6)).unwrap();
    assert_eq!(draft.repo, "r");
    assert_eq!(draft.head, "h");
    assert!(draft.draft);
    assert_eq!(
        PrDraft::from_json(&fields(2)).unwrap_err(),
        "invalid length 2, expected struct PrDraft with 6 elements"
    );
    assert_eq!(
        PrDraft::from_json(&fields(7)).unwrap_err(),
        "invalid length 7, expected fewer elements in array"
    );
    assert_eq!(
        PrDraft::from_json(&Json::List(vec![Json::Object(vec![])])).unwrap_err(),
        "invalid type: map, expected a string"
    );
}

#[test]
fn copies_keep_every_field() {
    let ticket = Ticket {
        key: TicketKey {
            provider: "gh".to_owned(),
            key: "acme/app#1".to_owned(),
        },
        title: "t".to_owned(),
        body: "b".to_owned(),
        status: "open".to_owned(),
        assignee: Some("me".to_owned()),
        url: "u".to_owned(),
        blocked_by: vec![TicketKey {
            provider: "gh".to_owned(),
            key: "acme/app#2".to_owned(),
        }],
    };
    assert_eq!(ticket.clone(), ticket);
    let pr = PrRef {
        repo: "acme/app".to_owned(),
        number: 3,
    };
    assert_eq!(pr.clone(), pr);
    assert_eq!(draft().clone(), draft());
    assert_eq!(
        TokenUsage::default(),
        TokenUsage {
            input: 0,
            output: 0
        }
    );
}

#[test]
fn statuses_are_cloned_whole() {
    for status in [
        AgentStatus::Running,
        AgentStatus::WaitingInput {
            prompt: "Which DB?".to_owned(),
        },
        AgentStatus::Finished {
            success: true,
            summary: "done".to_owned(),
        },
        AgentStatus::Failed {
            message: "boom".to_owned(),
        },
    ] {
        assert_eq!(status.clone(), status);
    }
}
