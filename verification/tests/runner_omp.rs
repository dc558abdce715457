use std::collections::BTreeMap;
use yardmaster::adapters::{
    AdapterError, AdapterResult, AgentSessionId, AgentStatus, AgentTask, Ticket, TicketKey,
    TokenUsage,
};
use yardmaster::runner_omp::{
    allocate_step, cancel_step, check_argv, exit_record, infer_status, next_message_number,
    placeholder_vars, read_pid, session_id, status, status_step, substitute, usage, Allocation,
    BackendSpec, Cancel, CancelAction, MakeDir, Probe, ProbeAction, ProbeEvent, ProcessRunner,
};

fn strings(items: &[&str]) -> Vec<String> {
    items.iter().map(|s| s.to_string()).collect()
}

fn stub_task() -> AgentTask {
    AgentTask {
        work_item_id: 1,
        worktree: "/tmp/x/wt".to_owned(),
        ticket: Ticket {
            key: TicketKey {
                provider: "github".into(),
                key: "acme/app#7".into(),
            },
            title: "add feature".into(),
            body: "details".into(),
            status: "open".into(),
            assignee: Some("me".into()),
            url: "https://example.test/7".into(),
            blocked_by: vec![],
        },
        instructions: "do the thing".into(),
    }
}

fn runner(resume: Option<&str>) -> ProcessRunner {
    let spec = BackendSpec {
        start_cmd: strings(&["/bin/sh", "start.sh", "{session_dir}"]),
        resume_cmd: resume.map(|r| strings(&["/bin/sh", r, "{session_dir}", "{message_file}"])),
    };
    ProcessRunner::new(spec, "/tmp/x/sessions".to_owned())
}

/// Probes a session with these files; `alive` says whether its process lives.
fn probe(
    files: &BTreeMap<&str, &str>,
    outcome: Option<(bool, &str)>,
    alive: bool,
) -> AdapterResult<AgentStatus> {
    let (mut state, mut action) = status();
    loop {
        let event = match action {
            ProbeAction::Read(name) => {
                ProbeEvent::File(Ok(files.get(name).map(|s| s.to_string())))
            }
            ProbeAction::WaitForExit => {
                ProbeEvent::File(Ok(files.get("exit_code").map(|s| s.to_string())))
            }
            ProbeAction::CheckPid(_) => ProbeEvent::Alive(alive),
            ProbeAction::ReadOutcome => {
                ProbeEvent::Outcome(Ok(outcome.map(|(ok, s)| (ok, s.to_owned()))))
            }
            ProbeAction::Finish(r) => return r,
        };
        let next = status_step(state, event);
        state = next.0;
        action = next.1;
    }
}

#[test]
fn happy_path_finishes_with_its_own_result() {
    let files = BTreeMap::from([("pid", "12"), ("exit_code", "0")]);
    assert_eq!(
        probe(&files, Some((true, "done")), false),
        Ok(AgentStatus::Finished {
            success: true,
            summary: "done".into()
        })
    );
}

#[test]
fn nonzero_exit_without_result_is_failed() {
    let record = exit_record(true, Some(3), None);
    let files = BTreeMap::from([("pid", "12"), ("exit_code", record.as_str())]);
    match probe(&files, None, false) {
        Ok(AgentStatus::Failed { message }) => assert!(message.contains('3'), "{message}"),
        other => panic!("expected Failed, got {other:?}"),
    }
    // No usage of the backend's is zeros, not an error.
    assert_eq!(usage(Ok(None)).unwrap(), TokenUsage::default());
    assert_eq!(TokenUsage::default(), TokenUsage { input: 0, output: 0 });
}

#[test]
fn usage_is_what_the_backend_says() {
    let said = TokenUsage { input: 120, output: 34 };
    assert_eq!(usage(Ok(Some(said))), Ok(TokenUsage { input: 120, output: 34 }));
    let corrupt = || AdapterError::Permanent("corrupt usage.json: eof".to_owned());
    assert_eq!(usage(Err(corrupt())), Err(corrupt()));
}

#[test]
fn question_file_yields_waiting_input() {
    // The question must win over the exit.
    let files = BTreeMap::from([("pid", "12"), ("exit_code", "0"), ("question", "Which DB?\n")]);
    assert_eq!(
        probe(&files, None, false),
        Ok(AgentStatus::WaitingInput {
            prompt: "Which DB?".to_owned()
        })
    );
}

#[test]
fn a_live_process_is_running() {
    let files = BTreeMap::from([("pid", "12")]);
    assert_eq!(probe(&files, None, true), Ok(AgentStatus::Running));
}

#[test]
fn a_dead_process_without_record_gets_its_grace() {
    let files = BTreeMap::from([("pid", "12")]);
    let (mut state, mut action) = status();
    let mut waits = 0;
    let result = loop {
        let event = match action {
            ProbeAction::Read(name) => {
                ProbeEvent::File(Ok(files.get(name).map(|s| s.to_string())))
            }
            ProbeAction::WaitForExit => {
                waits += 1;
                ProbeEvent::File(Ok(None))
            }
            ProbeAction::CheckPid(pid) => {
                assert_eq!(pid, 12);
                ProbeEvent::Alive(false)
            }
            ProbeAction::ReadOutcome => ProbeEvent::Outcome(Ok(None)),
            ProbeAction::Finish(r) => break r,
        };
        let next = status_step(state, event);
        state = next.0;
        action = next.1;
    };
    assert_eq!(waits, 10);
    match result {
        Ok(AgentStatus::Failed { message }) => {
            assert!(message.contains("outcome unrecorded"), "{message}")
        }
        other => panic!("expected Failed, got {other:?}"),
    }
    assert_eq!(state, Probe::Settled);
}

#[test]
fn records_are_told_apart() {
    assert_eq!(exit_record(true, None, Some(9)), "signal:9");
    assert_eq!(exit_record(true, None, None), "signal:0");
    assert_eq!(exit_record(false, Some(1), None), "unknown");
    let of = |s: &str| infer_status(&Some(s.to_owned()));
    assert_eq!(
        of("0\n"),
        AgentStatus::Finished {
            success: true,
            summary: "backend exited 0 without result.json".to_owned()
        }
    );
    assert_eq!(
        of("signal:9"),
        AgentStatus::Failed {
            message: "backend killed by signal:9".to_owned()
        }
    );
    assert_eq!(
        of("unknown"),
        AgentStatus::Failed {
            message: "backend outcome unrecorded (unknown)".to_owned()
        }
    );
    match infer_status(&None) {
        AgentStatus::Failed { message } => {
            assert!(message.contains("outcome unrecorded"), "{message}")
        }
        other => panic!("expected Failed, got {other:?}"),
    }
    assert_eq!(read_pid("17\n"), Ok(17));
    assert_eq!(
        read_pid("x"),
        Err(AdapterError::Permanent(
            "corrupt pid file: invalid digit found in string".to_owned()
        ))
    );
}

#[test]
fn cancel_terminates_then_kills_and_is_idempotent() {
    let (state, action) = cancel_step(Cancel::Checking, 5, true, false);
    assert_eq!(action, CancelAction::Terminate);
    let (state, action) = cancel_step(state, 5, true, false);
    assert_eq!(action, CancelAction::Wait);
    let (state, action) = cancel_step(state, 5, true, true);
    assert_eq!(action, CancelAction::Kill);
    let (_, action) = cancel_step(state, 5, false, false);
    assert_eq!(action, CancelAction::Finish(Ok(())));
    // Cancelling a dead session is fine.
    assert_eq!(
        cancel_step(Cancel::Checking, 5, false, false).1,
        CancelAction::Finish(Ok(()))
    );
    assert!(matches!(
        cancel_step(Cancel::Killing, 5, true, true).1,
        CancelAction::Finish(Err(AdapterError::Transient(_)))
    ));
}

#[test]
fn resume_without_resume_cmd_is_permanent() {
    let err = runner(None).check_resume().unwrap_err();
    assert!(matches!(err, AdapterError::Permanent(_)), "{err:?}");
    assert!(runner(None)
        .resume_argv("/tmp/x/sessions/a", &stub_task(), "/m")
        .is_err());
    assert_eq!(
        runner(Some("answer.sh"))
            .resume_argv("/tmp/x/sessions/a", &stub_task(), "/m")
            .unwrap(),
        strings(&["/bin/sh", "answer.sh", "/tmp/x/sessions/a", "/m"])
    );
}

#[test]
fn empty_start_cmd_is_permanent() {
    let empty = ProcessRunner::new(
        BackendSpec {
            start_cmd: Vec::new(),
            resume_cmd: None,
        },
        "/s".to_owned(),
    );
    assert!(matches!(
        empty.check_start(),
        Err(AdapterError::Permanent(_))
    ));
    assert!(runner(None).check_start().is_ok());
    assert!(check_argv(&Vec::new()).is_err());
    assert!(check_argv(&strings(&["x"])).is_ok());
}

#[test]
fn placeholders_substitute_in_argv() {
    let task = stub_task();
    let session_dir = "/tmp/x/sessions/abc123";
    let message_file = "/tmp/x/sessions/abc123/messages/2.md";

    let template = strings(&[
        "run",
        "--wt={worktree}",
        "{instructions_file}",
        "key={ticket_key} in {session_dir}",
        "{message_file}",
        "{unknown}",
    ]);
    let argv = substitute(
        &template,
        &placeholder_vars(session_dir, &task, Some(message_file)),
    );
    assert_eq!(
        argv,
        vec![
            "run".to_string(),
            format!("--wt={}", task.worktree),
            format!("{session_dir}/instructions.md"),
            format!("key=acme/app#7 in {session_dir}"),
            message_file.to_string(),
            "{unknown}".to_string(),
        ]
    );
}

#[test]
fn sessions_survive_runner_drop_and_recreate() {
    let first = runner(None);
    let id = AgentSessionId("0123456789ab".to_owned());
    let dir = first.session_dir(&id).unwrap();
    drop(first);

    // A brand-new runner over the same sessions_root sees everything.
    let second = runner(None);
    assert_eq!(second.existing_session_dir(&id, true), Ok(dir.clone()));
    assert_eq!(dir, "/tmp/x/sessions/0123456789ab");
    let files = BTreeMap::from([("pid", "12"), ("exit_code", "0")]);
    assert_eq!(
        probe(&files, Some((true, "done")), false),
        Ok(AgentStatus::Finished {
            success: true,
            summary: "done".into()
        })
    );
    assert_eq!(
        usage(Ok(Some(TokenUsage { input: 1, output: 2 }))).unwrap(),
        TokenUsage {
            input: 1,
            output: 2
        }
    );
    assert!(second.transcript(&id, true).unwrap().is_some());
    assert_eq!(
        second.transcript(&id, true),
        Ok(Some(format!("{dir}/transcript.log")))
    );
    assert_eq!(second.transcript(&id, false), Ok(None));

    let unknown = AgentSessionId("deadbeef0000".into());
    assert!(matches!(
        second.existing_session_dir(&unknown, false).unwrap_err(),
        AdapterError::Permanent(_)
    ));
}

#[test]
fn session_ids_cannot_leave_the_root() {
    for bad in ["", "..", "a/b", "../x", "a\\b"] {
        assert!(
            runner(None).session_dir(&AgentSessionId(bad.to_owned())).is_err(),
            "{bad:?}"
        );
    }
    assert_eq!(session_id(0xabc).len(), session_id(u64::MAX).len());
}

#[test]
fn session_directories_are_allocated_once() {
    assert!(matches!(
        allocate_step(0, "/s/a", MakeDir::Created),
        Allocation::Done
    ));
    assert!(matches!(
        allocate_step(0, "/s/a", MakeDir::Taken),
        Allocation::Again
    ));
    assert!(matches!(
        allocate_step(0, "/s/a", MakeDir::Failed("denied".to_owned())),
        Allocation::Fail(_)
    ));
}

#[test]
fn messages_are_numbered_after_the_last() {
    assert_eq!(next_message_number(&Vec::new()), Some(1));
    assert_eq!(
        next_message_number(&strings(&["1", "10", "notes", "2"])),
        Some(11)
    );
    assert_eq!(next_message_number(&strings(&["4294967295"])), None);
}
