use yardmaster::adapters::{
    AdapterError, AgentSessionId, AgentStatus, PrRef, Ticket, TicketKey,
};
use yardmaster::config::{Config, Provider, Repo};
use yardmaster::json::{Fields, Json};
use yardmaster::scheduler::{
    branch_for, compose_instructions, friendly_create_error, logs_done, planned_providers,
    pr_draft_for, resolve_repo_name, resolve_ticket_ref, tail_chars, tail_lines, FinishStep,
    Outcome, Run, Scheduler, StatusQuery,
};
use yardmaster::storage::{
    GateRequestRow, ItemRecord, Snapshot, Storage, StorageError, WorkItemRow, SCHEMA_VERSION,
};
use yardmaster::worktree::WorktreeError;

const NOW: &str = "2026-01-02T03:04:05Z";

fn open_temp() -> Storage {
    let rows = Snapshot {
        items: Vec::new(),
        events: Vec::new(),
        gates: Vec::new(),
        last_event: 0,
    };
    Storage::open(SCHEMA_VERSION, rows).expect("open")
}

fn github() -> Provider {
    Provider {
        kind: "github".to_owned(),
        url: None,
        user: Some("me".to_owned()),
    }
}

fn providers(names: &[&str]) -> Config {
    let mut config = Config::default();
    for name in names {
        config.providers = config.providers.insert(name.to_string(), github());
    }
    config
}

fn app() -> Repo {
    Repo::new("/opt/app", "github")
}

fn with_app(repo: Repo) -> Config {
    let mut config = Config::default();
    config.repos = config.repos.insert("app".to_owned(), repo);
    config
}

fn ticket(key: &str, title: &str) -> Ticket {
    Ticket {
        key: TicketKey {
            provider: "gh".into(),
            key: key.into(),
        },
        title: title.into(),
        body: "Please add the frobnicator.".into(),
        status: "open".into(),
        assignee: Some("me".into()),
        url: format!("https://example.test/{key}"),
        blocked_by: Vec::new(),
    }
}

fn wired_repo() -> Repo {
    let mut repo = app();
    repo.provider = Some("gh".to_owned());
    repo.remote_repo = Some("acme/widgets".to_owned());
    repo
}

fn wired(repo: Repo) -> Scheduler {
    let mut config = with_app(repo);
    config.providers = config.providers.insert("gh".to_owned(), github());
    Scheduler::new(config, "/state", &vec!["gh".to_owned()])
}

fn kinds(storage: &Storage) -> Vec<String> {
    storage
        .events(None)
        .unwrap()
        .into_iter()
        .map(|e| e.kind)
        .collect()
}

/// An item whose agent runs.
fn developing(s: &Scheduler, storage: &mut Storage) -> i64 {
    let plan = s.add("gh:acme/widgets#23", None).expect("plan");
    let intake = match s.add_ticket(
        storage,
        plan,
        None,
        Outcome::Done(ticket("acme/widgets#23", "Add frobnicator")),
        NOW,
    ) {
        Ok(intake) => intake,
        Err(e) => panic!("{e}"),
    };
    let task = s
        .add_worktree(storage, &intake, Outcome::Done("/wt/x".to_owned()), NOW)
        .expect("task");
    assert_eq!(task.worktree, "/wt/x");
    let added = s
        .add_agent(
            storage,
            &intake,
            "/wt/x",
            Outcome::Done(AgentSessionId("s1".to_owned())),
            NOW,
        )
        .expect("added");
    assert_eq!(added.state, "developing");
    assert_eq!(added.branch, "feature/acme-widgets-23-add-frobnicator");
    added.id
}

#[test]
fn ticket_ref_prefix_and_single_provider_fallback() {
    let two = providers(&["gh", "hub"]);
    assert_eq!(
        resolve_ticket_ref(&two, "gh:acme/app#7").unwrap(),
        ("gh".to_owned(), "acme/app#7".to_owned())
    );
    // Ambiguous without a prefix when several providers exist.
    let err = resolve_ticket_ref(&two, "acme/app#7").unwrap_err();
    assert!(err.contains("gh") && err.contains("hub"), "{err}");

    let one = providers(&["gh"]);
    assert_eq!(
        resolve_ticket_ref(&one, "acme/app#7").unwrap(),
        ("gh".to_owned(), "acme/app#7".to_owned())
    );
    // A colon inside the key must not be mistaken for an unknown prefix.
    assert_eq!(
        resolve_ticket_ref(&one, "weird:key").unwrap(),
        ("gh".to_owned(), "weird:key".to_owned())
    );
}

#[test]
fn repo_resolution_validates_and_defaults() {
    let cfg = with_app(app());
    assert_eq!(resolve_repo_name(&cfg, None).unwrap(), "app");
    assert_eq!(resolve_repo_name(&cfg, Some("app")).unwrap(), "app");
    assert!(resolve_repo_name(&cfg, Some("ghost")).is_err());
    assert!(resolve_repo_name(&Config::default(), None).is_err());
}

#[test]
fn branch_rendering_sanitizes_ticket_and_slugs_title() {
    let repo = app();
    let branch = branch_for(&repo, None, "acme/widgets#23", "Add frobnicator").unwrap();
    assert_eq!(branch, "feature/acme-widgets-23-add-frobnicator");
    let branch = branch_for(&repo, Some("fix"), "acme/widgets#23", "Oops").unwrap();
    assert_eq!(branch, "fix/acme-widgets-23-oops");
}

#[test]
fn pr_draft_closes_ticket_only_in_its_own_repo() {
    let mut repo = app();
    repo.remote_repo = Some("acme/widgets".to_owned());
    repo.base = "main".to_owned();
    let draft = pr_draft_for(
        &repo,
        &ticket("acme/widgets#23", "Add frobnicator"),
        "feature/x",
        "did it",
    )
    .unwrap();
    assert_eq!(draft.repo, "acme/widgets");
    assert_eq!(draft.title, "acme/widgets#23: Add frobnicator");
    assert!(draft.body.starts_with("Closes #23.\n\n"), "{}", draft.body);
    assert!(draft.body.ends_with("did it"), "{}", draft.body);
    assert_eq!(draft.base, "main");
    assert_eq!(draft.head, "feature/x");
    assert!(draft.draft);

    // Cross-repo ticket: no bogus "Closes #N".
    let cross = pr_draft_for(
        &repo,
        &ticket("acme/other#23", "Elsewhere"),
        "feature/x",
        "did it",
    )
    .unwrap();
    assert!(!cross.body.contains("Closes"), "{}", cross.body);

    // remote_repo is required.
    assert!(pr_draft_for(&app(), &ticket("acme/widgets#23", "T"), "b", "s").is_err());
}

#[test]
fn instructions_forbid_remote_actions() {
    let mut repo = app();
    repo.check_command = vec!["make".to_owned(), "test".to_owned()];
    let text = compose_instructions(
        &ticket("acme/widgets#23", "Add frobnicator"),
        "app",
        &repo,
        "feature/x",
    );
    assert!(text.contains("acme/widgets#23"), "{text}");
    assert!(text.contains("branch `feature/x`"), "{text}");
    assert!(text.contains("NEVER push"), "{text}");
    assert!(
        text.contains("the orchestrator handles everything remote"),
        "{text}"
    );
    assert!(text.contains("make test"), "{text}");
}

#[test]
fn tails_keep_the_end() {
    assert_eq!(tail_lines("a\nb\nc\n", 2), vec!["b", "c"]);
    assert_eq!(tail_lines("a\nb", 10), vec!["a", "b"]);
    assert!(tail_lines("", 3).is_empty());
    assert_eq!(tail_chars("héllo", 3), "llo");
    assert_eq!(tail_chars("ab", 10), "ab");
}

#[test]
fn providers_in_use_are_planned() {
    let mut config = with_app(wired_repo());
    config.providers = config
        .providers
        .insert("gh".to_owned(), github())
        .insert("idle".to_owned(), github());
    let plans = planned_providers(&config);
    assert_eq!(plans[0].name, "gh");
    assert_eq!(plans[0].user, "me");
    assert_eq!(plans[0].secret_key, "providers.gh");
    assert_eq!(plans[0].api_url, "https://api.github.com");
    assert_eq!(plans[0].remote_repos, vec!["acme/widgets".to_owned()]);
}

#[test]
fn adding_a_ticket_leaves_it_developing() {
    let s = wired(wired_repo());
    let mut storage = open_temp();
    let id = developing(&s, &mut storage);
    let row = storage.get_work_item(id).unwrap();
    assert_eq!(row.state, "developing");
    assert_eq!(row.worktree_path.as_deref(), Some("/wt/x"));
    assert_eq!(
        storage.work_item_agent_session(id).unwrap().as_deref(),
        Some("s1")
    );
}

#[test]
fn a_ticket_of_somebody_else_leaves_no_trace() {
    let s = wired(wired_repo());
    let mut storage = open_temp();
    let plan = s.add("gh:acme/widgets#23", None).expect("plan");
    let mut foreign = ticket("acme/widgets#23", "T");
    foreign.assignee = Some("alice".to_owned());
    let err = match s.add_ticket(&mut storage, plan, None, Outcome::Done(foreign), NOW) {
        Err(e) => e,
        Ok(_) => panic!("accepted"),
    };
    assert!(err.contains("alice"), "{err}");
    assert!(storage.list_work_items().unwrap().is_empty());
    assert!(storage.events(None).unwrap().is_empty());
}

#[test]
fn a_ticket_is_added_once() {
    let s = wired(wired_repo());
    let mut storage = open_temp();
    developing(&s, &mut storage);
    let plan = s.add("gh:acme/widgets#23", None).expect("plan");
    let err = match s.add_ticket(
        &mut storage,
        plan,
        None,
        Outcome::Done(ticket("acme/widgets#23", "Add frobnicator")),
        NOW,
    ) {
        Err(e) => e,
        Ok(_) => panic!("accepted"),
    };
    assert!(err.contains("acme/widgets#23") && err.contains("app"), "{err}");
    assert_eq!(
        friendly_create_error(&StorageError::WorkItemNotFound(1), "t", "r"),
        StorageError::WorkItemNotFound(1).message()
    );
}

#[test]
fn failures_on_the_way_escalate() {
    let s = wired(wired_repo());
    let mut storage = open_temp();
    let plan = s.add("gh:acme/widgets#23", None).expect("plan");
    let intake = match s.add_ticket(
        &mut storage,
        plan,
        Some("fix"),
        Outcome::Done(ticket("acme/widgets#23", "T")),
        NOW,
    ) {
        Ok(intake) => intake,
        Err(e) => panic!("{e}"),
    };
    let failed = s.add_worktree(
        &mut storage,
        &intake,
        Outcome::Failed(WorktreeError::Io("disk full".to_owned())),
        NOW,
    );
    assert!(failed.is_err());
    assert_eq!(
        storage.get_work_item(intake.item_id).unwrap().state,
        "escalated"
    );
}

#[test]
fn questions_are_recorded_once() {
    let mut s = wired(wired_repo());
    let mut storage = open_temp();
    let id = developing(&s, &mut storage);
    let rows = s.tick(&storage);
    assert_eq!(rows.len(), 1);
    assert_eq!(
        s.query(&storage, &rows[0]),
        Some(StatusQuery {
            session: "s1".to_owned(),
            backend: "omp".to_owned()
        })
    );
    let asking = || {
        Outcome::Done(AgentStatus::WaitingInput {
            prompt: "Which DB?".to_owned(),
        })
    };
    assert_eq!(s.on_status(&mut storage, id, "s1", asking(), NOW), None);
    let after = kinds(&storage).len();
    assert_eq!(s.on_status(&mut storage, id, "s1", asking(), NOW), None);
    assert_eq!(kinds(&storage).len(), after);
}

#[test]
fn failed_agents_escalate() {
    let mut s = wired(wired_repo());
    let mut storage = open_temp();
    let id = developing(&s, &mut storage);
    let failed = Outcome::Done(AgentStatus::Failed {
        message: "crashed".to_owned(),
    });
    assert_eq!(s.on_status(&mut storage, id, "s1", failed, NOW), None);
    assert_eq!(storage.get_work_item(id).unwrap().state, "escalated");
}

/// Brings an item to its pending gate.
fn gated(s: &mut Scheduler, storage: &mut Storage, repo: &Repo) -> (i64, i64) {
    let id = developing(s, storage);
    let finished = Outcome::Done(AgentStatus::Finished {
        success: true,
        summary: "did it".to_owned(),
    });
    let summary = s
        .on_status(storage, id, "s1", finished, NOW)
        .expect("finishes");
    let item = storage.get_work_item(id).unwrap();
    let done = || Run::Exited {
        success: true,
        code: Some(0),
        stderr: String::new(),
    };
    match s.finish_item(storage, &item, repo, NOW) {
        FinishStep::Push { argv, cwd } => {
            assert_eq!(argv[0], "git");
            assert_eq!(argv[1], "push");
            assert_eq!(cwd, "/wt/x");
        }
        _ => panic!("no checks are configured"),
    }
    match s.finish_push(storage, &item, done(), NOW) {
        FinishStep::Fetch(key) => assert_eq!(key.key, "acme/widgets#23"),
        _ => panic!("the ticket is read again"),
    }
    s.finish_ticket(
        storage,
        &item,
        repo,
        &summary,
        Outcome::Done(ticket("acme/widgets#23", "Add frobnicator")),
        NOW,
    );
    let gates = s.gates(storage).expect("gates").gates;
    assert_eq!(gates.len(), 1);
    assert_eq!(gates[0].action, "create_pr");
    assert_eq!(gates[0].ticket, "acme/widgets#23");
    assert_eq!(gates[0].repo, "app");
    (id, gates[0].id)
}

#[test]
fn nothing_is_public_before_its_approval() {
    let mut s = wired(wired_repo());
    let mut storage = open_temp();
    let (id, gate) = gated(&mut s, &mut storage, &wired_repo());
    assert_eq!(storage.get_work_item(id).unwrap().pr_ref, None);
    // The item waits: it is not polled while its gate is pending.
    assert!(s.query(&storage, &s.tick(&storage)[0]).is_none());

    let approved = match s.approve(&mut storage, gate, NOW) {
        Ok(approved) => approved,
        Err(e) => panic!("{e}"),
    };
    assert_eq!(approved.provider, "gh");
    assert_eq!(approved.draft.repo, "acme/widgets");
    assert_eq!(approved.draft.head, "feature/acme-widgets-23-add-frobnicator");
    assert_eq!(storage.get_gate_request(gate).unwrap().status, "approved");
    let result = s
        .approve_done(
            &mut storage,
            &approved,
            Outcome::Done(PrRef {
                repo: "acme/widgets".to_owned(),
                number: 42,
            }),
            NOW,
        )
        .expect("created");
    assert_eq!(result.pr.as_deref(), Some("acme/widgets#42"));
    assert_eq!(result.state, "pr_pending");
    assert_eq!(
        storage.get_work_item(id).unwrap().pr_ref.as_deref(),
        Some("acme/widgets#42")
    );
    // A second approval hands out nothing.
    match s.approve(&mut storage, gate, NOW) {
        Err(e) => assert!(e.contains("approved"), "{e}"),
        Ok(_) => panic!("approved twice"),
    }
}

#[test]
fn rejected_gates_escalate_and_never_execute() {
    let mut s = wired(wired_repo());
    let mut storage = open_temp();
    let (id, gate) = gated(&mut s, &mut storage, &wired_repo());
    let rejected = s
        .reject(&mut storage, gate, None, NOW)
        .expect("rejected");
    assert_eq!(rejected.state, "escalated");
    assert_eq!(storage.get_work_item(id).unwrap().state, "escalated");
    let events = storage.events(Some(id)).unwrap();
    let verdict = events
        .iter()
        .find(|e| e.kind == "gate_rejected")
        .expect("event");
    assert_eq!(verdict.actor, "human");
    assert_eq!(verdict.payload.get("reason"), Some(&Json::text("rejected")));
    assert!(s.approve(&mut storage, gate, NOW).is_err());
}

#[test]
fn failed_creation_escalates() {
    let mut s = wired(wired_repo());
    let mut storage = open_temp();
    let (id, gate) = gated(&mut s, &mut storage, &wired_repo());
    let approved = match s.approve(&mut storage, gate, NOW) {
        Ok(approved) => approved,
        Err(e) => panic!("{e}"),
    };
    let err = s
        .approve_done(
            &mut storage,
            &approved,
            Outcome::Failed(AdapterError::Permanent("422".to_owned())),
            NOW,
        )
        .unwrap_err();
    assert_eq!(
        err,
        "creating PR for acme/widgets: permanent adapter error: 422"
    );
    assert_eq!(storage.get_work_item(id).unwrap().state, "escalated");
    assert!(kinds(&storage).contains(&"pr_create_failed".to_owned()));
}

#[test]
fn approvals_name_what_is_wrong() {
    let s = wired(wired_repo());
    let mut storage = open_temp();
    let fail = |storage: &mut Storage, gate: i64| match s.approve(storage, gate, NOW) {
        Err(e) => e,
        Ok(_) => panic!("approved"),
    };
    let id = storage
        .create_work_item("gh", "acme/widgets#1", "app", "developing")
        .unwrap();
    let other = storage
        .create_work_item("gh", "acme/widgets#1", "gone", "developing")
        .unwrap();
    assert_eq!(
        fail(&mut storage, 99),
        StorageError::GateRequestNotFound(99).message()
    );
    let empty = Fields::new().done();
    let odd = storage.create_gate_request(id, "dance", &empty).unwrap();
    assert_eq!(
        fail(&mut storage, odd),
        format!("gate {odd} has unknown action \"dance\"")
    );
    let merge = storage.create_gate_request(id, "merge", &empty).unwrap();
    assert_eq!(
        fail(&mut storage, merge),
        "no executor for gated action 'merge' yet"
    );
    let hollow = storage.create_gate_request(id, "create_pr", &empty).unwrap();
    assert_eq!(
        fail(&mut storage, hollow),
        format!("gate {hollow} payload is not a PR draft: missing field `repo`")
    );
    let draft = pr_draft_for(&wired_repo(), &ticket("acme/widgets#1", "T"), "b", "s").unwrap();
    let lost = storage
        .create_gate_request(other, "create_pr", &draft.to_json())
        .unwrap();
    assert_eq!(fail(&mut storage, lost), "repo 'gone' is not configured");
    // Nothing of this was approved.
    assert_eq!(storage.pending_gate_requests(None).unwrap().len(), 4);
}

#[test]
fn failing_checks_and_pushes_escalate() {
    let mut repo = wired_repo();
    repo.check_command = vec!["make".to_owned(), "test".to_owned()];
    let s = wired(wired_repo());
    let mut storage = open_temp();
    let id = developing(&s, &mut storage);
    let item = storage.get_work_item(id).unwrap();
    match s.finish_item(&mut storage, &item, &repo, NOW) {
        FinishStep::Check { argv, .. } => assert_eq!(argv, repo.check_command),
        _ => panic!("checks come first"),
    }
    let passed = Run::Exited {
        success: true,
        code: Some(0),
        stderr: String::new(),
    };
    assert!(matches!(
        s.finish_checks(&mut storage, &item, &repo, passed, NOW),
        FinishStep::Push { .. }
    ));
    let failed = Run::Exited {
        success: false,
        code: Some(2),
        stderr: "x".repeat(5000),
    };
    assert!(matches!(
        s.finish_push(&mut storage, &item, failed, NOW),
        FinishStep::Stop
    ));
    assert_eq!(storage.get_work_item(id).unwrap().state, "escalated");
    let events = storage.events(Some(id)).unwrap();
    let push = events.iter().find(|e| e.kind == "push_failed").expect("event");
    assert_eq!(push.payload.get("exit_code"), Some(&Json::Int(2)));
}

#[test]
fn logs_read_the_session_of_the_item() {
    let s = wired(wired_repo());
    let mut storage = open_temp();
    let id = developing(&s, &mut storage);
    assert_eq!(
        s.logs(&storage, id),
        Ok(StatusQuery {
            session: "s1".to_owned(),
            backend: "omp".to_owned()
        })
    );
    assert_eq!(
        s.logs(&storage, 99),
        Err(StorageError::WorkItemNotFound(99).message())
    );
    let bare = storage
        .create_work_item("gh", "acme/widgets#2", "app", "queued")
        .unwrap();
    assert_eq!(
        s.logs(&storage, bare),
        Err(format!("work item {bare} has no agent session"))
    );

    let read = logs_done(Some(("/t".to_owned(), Ok("a\nb\nc\n".to_owned()))), 2).unwrap();
    assert_eq!(read.transcript_path.as_deref(), Some("/t"));
    assert_eq!(read.lines, vec!["b", "c"]);
    assert_eq!(
        logs_done(Some(("/t".to_owned(), Err("denied".to_owned()))), 2),
        Err("reading transcript /t: denied".to_owned())
    );
    assert!(logs_done(None, 2).unwrap().lines.is_empty());
}

#[test]
fn lost_creation_escalates() {
    let mut s = wired(wired_repo());
    let mut storage = open_temp();
    let (id, gate) = gated(&mut s, &mut storage, &wired_repo());
    let approved = match s.approve(&mut storage, gate, NOW) {
        Ok(approved) => approved,
        Err(e) => panic!("{e}"),
    };
    let lost = Outcome::Lost("adapter task failed: panic".to_owned());
    let err = s
        .approve_done(&mut storage, &approved, lost, NOW)
        .unwrap_err();
    assert_eq!(err, "adapter task failed: panic");
    assert_eq!(storage.get_work_item(id).unwrap().state, "escalated");
    let events = storage.events(Some(id)).unwrap();
    let failed = events
        .iter()
        .find(|e| e.kind == "pr_create_failed")
        .expect("event");
    assert_eq!(
        failed.payload.get("error"),
        Some(&Json::text("adapter task failed: panic"))
    );
}

#[test]
fn requests_that_cannot_be_stored_escalate() {
    let s = wired(wired_repo());
    let row = || WorkItemRow {
        id: 1,
        provider: "gh".to_owned(),
        ticket_key: "acme/widgets#23".to_owned(),
        repo: "app".to_owned(),
        state: "developing".to_owned(),
        branch: Some("feature/x".to_owned()),
        worktree_path: Some("/wt/x".to_owned()),
        pr_ref: None,
        created_at: NOW.to_owned(),
        updated_at: NOW.to_owned(),
    };
    // The last id of a request is taken.
    let rows = Snapshot {
        items: vec![ItemRecord {
            row: row(),
            agent_session: Some("s1".to_owned()),
        }],
        events: Vec::new(),
        gates: vec![GateRequestRow {
            id: i64::MAX,
            work_item_id: 1,
            action_kind: "create_pr".to_owned(),
            payload: Fields::new().done(),
            status: "rejected".to_owned(),
            created_at: NOW.to_owned(),
            resolved_at: Some(NOW.to_owned()),
            resolved_by: Some("human".to_owned()),
        }],
        last_event: 0,
    };
    let mut storage = Storage::open(SCHEMA_VERSION, rows).expect("open");
    s.finish_ticket(
        &mut storage,
        &row(),
        &wired_repo(),
        "did it",
        Outcome::Done(ticket("acme/widgets#23", "Add frobnicator")),
        NOW,
    );
    assert_eq!(storage.get_work_item(1).unwrap().state, "escalated");
    assert!(kinds(&storage).contains(&"pr_draft_failed".to_owned()));
}

#[test]
fn listing_a_gate_without_its_item_names_the_item() {
    let s = wired(wired_repo());
    let rows = Snapshot {
        items: Vec::new(),
        events: Vec::new(),
        gates: vec![GateRequestRow {
            id: 1,
            work_item_id: 7,
            action_kind: "create_pr".to_owned(),
            payload: Fields::new().done(),
            status: "pending".to_owned(),
            created_at: NOW.to_owned(),
            resolved_at: None,
            resolved_by: None,
        }],
        last_event: 0,
    };
    let mut storage = Storage::open(SCHEMA_VERSION, rows).expect("open");
    match s.gates(&storage) {
        Err(e) => assert_eq!(e, "work item 7 not found"),
        Ok(_) => panic!("must fail"),
    }
    match s.reject(&mut storage, 1, None, NOW) {
        Err(e) => assert_eq!(e, "sqlite error: FOREIGN KEY constraint failed"),
        Ok(_) => panic!("must fail"),
    }
    assert_eq!(storage.get_gate_request(1).unwrap().status, "pending");
}
