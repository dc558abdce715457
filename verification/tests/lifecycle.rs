use yardmaster::clock::now_rfc3339;
use yardmaster::ipc::Method;
use yardmaster::json::{Fields, Json};
use yardmaster::lifecycle::{
    acquire_lock, lock_owner, lock_step, record_started, record_stopped, run, signal_target,
    DaemonHandler, LockAction, LockEvent, LockState, Stage, StageEnd,
};
use yardmaster::storage::{Snapshot, Storage, SCHEMA_VERSION};

const NOW: &str = "2026-01-02T03:04:05Z";

fn open_temp() -> Storage {
    let rows = Snapshot {
        items: Vec::new(),
        events: Vec::new(),
        gates: Vec::new(),
        last_event: 0,
    };
    Storage::open(SCHEMA_VERSION, rows).expect("open")
}

/// Takes a lock against a file with the given contents; only `live` is alive.
fn take(content: Option<&str>, live: i32) -> (Result<LockState, String>, Option<String>) {
    let mut file = content.map(str::to_owned);
    let (mut state, mut action) = acquire_lock();
    loop {
        let event = match action {
            LockAction::Create => match &file {
                None => {
                    file = Some("4242".to_owned());
                    LockEvent::Created
                }
                Some(s) => LockEvent::Exists(Some(s.clone())),
            },
            LockAction::Check(pid) => LockEvent::Checked {
                delivered: pid == live,
                denied: false,
            },
            LockAction::Remove => {
                file = None;
                LockEvent::Removed
            }
            LockAction::Done(s) => return (Ok(s), file),
            LockAction::Fail(m) => return (Err(m), file),
        };
        let next = lock_step("/s/daemon.lock", state, event);
        state = next.0;
        action = next.1;
    }
}

#[test]
fn rfc3339_shape() {
    let ts = now_rfc3339();
    assert_eq!(ts.len(), 20, "{ts}");
    assert!(ts.ends_with('Z'), "{ts}");
    assert_eq!(&ts[4..5], "-");
    assert_eq!(&ts[10..11], "T");
}

#[test]
fn stale_lock_is_reclaimed() {
    let stale = u32::MAX.to_string();
    let (outcome, file) = take(Some(&stale), 1);
    assert_eq!(outcome, Ok(LockState::Acquired));
    assert_eq!(file.as_deref(), Some("4242"));
}

#[test]
fn live_lock_is_respected() {
    let (outcome, file) = take(Some("77"), 77);
    assert_eq!(outcome, Ok(LockState::AlreadyRunning(77)));
    assert_eq!(file.as_deref(), Some("77"));
}

#[test]
fn garbage_lock_is_reclaimed() {
    let (outcome, _) = take(Some("not a pid"), 1);
    assert_eq!(outcome, Ok(LockState::Acquired));
}

#[test]
fn dead_owner_is_reclaimed_and_denied_owner_is_alive() {
    assert_eq!(take(Some("78\n"), 77).0, Ok(LockState::Acquired));
    let (state, _) = acquire_lock();
    let (state, action) = lock_step("/l", state, LockEvent::Exists(Some("9".to_owned())));
    assert_eq!(action, LockAction::Check(9));
    let (_, action) = lock_step(
        "/l",
        state,
        LockEvent::Checked {
            delivered: false,
            denied: true,
        },
    );
    assert_eq!(action, LockAction::Done(LockState::AlreadyRunning(9)));
}

#[test]
fn lock_churn_gives_up() {
    let (mut state, mut action) = acquire_lock();
    let mut creations = 0;
    loop {
        let event = match action {
            LockAction::Create => {
                creations += 1;
                LockEvent::Exists(None)
            }
            LockAction::Remove => LockEvent::Removed,
            LockAction::Fail(m) => {
                assert_eq!(
                    m,
                    "could not acquire /l after repeated attempts (lock churn?)"
                );
                break;
            }
            other => panic!("unexpected {other:?}"),
        };
        let next = lock_step("/l", state, event);
        state = next.0;
        action = next.1;
    }
    assert_eq!(creations, 5);
}

#[test]
fn lock_failures_name_the_file() {
    let fail = |event: LockEvent| match lock_step("/l", acquire_lock().0, event).1 {
        LockAction::Fail(m) => m,
        other => panic!("unexpected {other:?}"),
    };
    assert_eq!(
        fail(LockEvent::NotWritten("full".to_owned())),
        "writing pid to /l: full"
    );
    assert_eq!(
        fail(LockEvent::NotCreated("denied".to_owned())),
        "creating lock file /l: denied"
    );
    assert_eq!(
        fail(LockEvent::NotRemoved("denied".to_owned())),
        "removing /l: denied"
    );
}

#[test]
fn lock_owners_are_positive_pids() {
    assert_eq!(lock_owner(&Some(" 12\n".to_owned())), Some(12));
    assert_eq!(lock_owner(&Some("0".to_owned())), None);
    assert_eq!(lock_owner(&Some("-1".to_owned())), None);
    assert_eq!(lock_owner(&None), None);
    assert_eq!(signal_target(5), Some(5));
    assert_eq!(signal_target(u32::MAX), None);
}

#[test]
fn a_run_passes_its_stages_and_cleans_up() {
    let mut r = run();
    let mut seen = Vec::new();
    while r.stage != Stage::Exit {
        seen.push(r.stage);
        r = r.step("/s", StageEnd::Done);
    }
    assert_eq!(
        seen,
        vec![
            Stage::Config,
            Stage::StateDir,
            Stage::Lock,
            Stage::Socket,
            Stage::Storage,
            Stage::Started,
            Stage::Runtime,
            Stage::Serve,
            Stage::Stopped,
        ]
    );
    assert!(r.owns_lock && r.owns_socket);
    assert_eq!(r.result, Ok(()));
}

#[test]
fn double_start_is_a_quiet_no_op() {
    let r = run()
        .step("/s", StageEnd::Done)
        .step("/s", StageEnd::Done)
        .step("/s", StageEnd::AlreadyRunning);
    assert_eq!(r.stage, Stage::Exit);
    assert!(!r.owns_lock && !r.owns_socket);
    assert_eq!(r.result, Ok(()));
}

#[test]
fn failing_stages_are_explained() {
    let failed = |steps: u32| {
        let mut r = run();
        for _ in 0..steps {
            r = r.step("/s", StageEnd::Done);
        }
        r.step("/s", StageEnd::Failed("why".to_owned()))
    };
    assert_eq!(failed(0).result, Err("loading configuration: why".to_owned()));
    assert_eq!(
        failed(1).result,
        Err("creating state directory /s: why".to_owned())
    );
    assert_eq!(failed(2).result, Err("why".to_owned()));
    assert!(!failed(2).owns_lock);
    assert!(failed(3).owns_lock && !failed(3).owns_socket);
    assert_eq!(failed(4).result, Err("opening storage: why".to_owned()));
    assert!(failed(4).owns_socket);
    assert_eq!(
        failed(5).result,
        Err("recording daemon_started event: why".to_owned())
    );
    assert_eq!(
        failed(6).result,
        Err("building tokio runtime: why".to_owned())
    );
    // Serving failed: the stop is still recorded, and the error kept.
    let serving = failed(7);
    assert_eq!(serving.stage, Stage::Stopped);
    let exit = serving.step("/s", StageEnd::Failed("locked".to_owned()));
    assert_eq!(exit.stage, Stage::Exit);
    assert_eq!(exit.result, Err("why".to_owned()));
}

#[test]
fn starts_and_stops_are_recorded() {
    let mut storage = open_temp();
    record_started(&mut storage, 7, "0.0.1", NOW).unwrap();
    record_stopped(&mut storage, 7, NOW).unwrap();
    let events = storage.events(None).unwrap();
    assert_eq!(events[0].kind, "daemon_started");
    assert_eq!(events[0].actor, "daemon");
    assert_eq!(
        events[0].payload,
        Fields::new()
            .with("pid", Json::from_u64(7))
            .with("version", Json::text("0.0.1"))
            .done()
    );
    assert_eq!(events[1].kind, "daemon_stopped");
    assert_eq!(events[1].payload, Fields::new().with("pid", Json::from_u64(7)).done());
}

#[test]
fn requests_are_answered_from_storage() {
    let mut storage = open_temp();
    let id = storage
        .create_work_item("gh", "acme/app#1", "app", "developing")
        .unwrap();
    storage
        .create_gate_request(id, "create_pr", &Fields::new().done())
        .unwrap();
    let handler = DaemonHandler {
        version: "0.0.1".to_owned(),
        pid: 7,
        state_dir: "/s".to_owned(),
        started_at: NOW.to_owned(),
    };
    assert_eq!(
        handler.handle(&storage, Method::Ping),
        (Ok(Fields::new().done()), false)
    );
    assert_eq!(
        handler.handle(&storage, Method::Shutdown),
        (Ok(Fields::new().done()), true)
    );
    assert_eq!(
        handler.handle(&storage, Method::Subscribe),
        (Err("subscribe is handled by the server".to_owned()), false)
    );
    let (status, stop) = handler.handle(&storage, Method::Status);
    assert!(!stop);
    let report = handler.status_report(&storage).unwrap();
    assert_eq!(status, Ok(report.to_json()));
    assert_eq!(report.items.len(), 1);
    assert_eq!(report.items[0].pending_gates, 1);
    assert_eq!(report.items[0].ticket, "acme/app#1");
    assert_eq!(report.daemon.pid, 7);
}
