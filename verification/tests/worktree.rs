use yardmaster::worktree::{
    git_argv, git_outcome, hook_env, hook_outcome, Action, WorktreeError, WorktreeManager,
    WorktreeSpec,
};

fn strings(items: &[&str]) -> Vec<String> {
    items.iter().map(|s| s.to_string()).collect()
}

fn manager(setup: &[&str], teardown: &[&str]) -> WorktreeManager {
    WorktreeManager::new(WorktreeSpec {
        repo_path: "/tmp/x/repo".to_owned(),
        worktrees_root: "/tmp/x/worktrees".to_owned(),
        setup_hook: strings(setup),
        teardown_hook: strings(teardown),
    })
}

/// A repository without a remote: its branches, and the worktrees on them.
struct Repo {
    branches: Vec<String>,
    worktrees: Vec<String>,
    hooks: Vec<String>,
    hook_fails: bool,
}

impl Repo {
    fn new() -> Repo {
        Repo {
            branches: strings(&["main"]),
            worktrees: Vec::new(),
            hooks: Vec::new(),
            hook_fails: false,
        }
    }

    fn act(&mut self, action: &Action) -> Result<String, WorktreeError> {
        match action {
            Action::CreateDir(_) => Ok(String::new()),
            Action::Hook { worktree, .. } => {
                self.hooks.push(worktree.clone());
                hook_outcome(!self.hook_fails, "boom\n".to_owned())
            }
            Action::Git(args) => {
                let words: Vec<&str> = args.iter().map(|a| a.as_str()).collect();
                let ok = match words.as_slice() {
                    ["remote"] => true,
                    ["worktree", "add", "-b", branch, path, _base]
                    | ["worktree", "add", path, "-b", branch, _base] => {
                        let fresh = !self.branches.iter().any(|b| b == branch);
                        if fresh {
                            self.branches.push(branch.to_string());
                            self.worktrees.push(path.to_string());
                        }
                        fresh
                    }
                    ["worktree", "remove", "--force", path] => {
                        self.worktrees.retain(|w| w != path);
                        true
                    }
                    ["branch", "-D", branch] => {
                        self.branches.retain(|b| b != branch);
                        true
                    }
                    other => panic!("unexpected git {other:?}"),
                };
                git_outcome(
                    "/tmp/x/repo",
                    args,
                    ok,
                    String::new(),
                    "fatal: already exists".to_owned(),
                )
            }
            Action::Finish(_) => unreachable!(),
        }
    }

    fn create(&mut self, m: &WorktreeManager, branch: &str) -> Result<String, WorktreeError> {
        let (mut state, mut action) = m.create();
        loop {
            if let Action::Finish(r) = action {
                return r;
            }
            let event = self.act(&action);
            let next = m.create_step(branch, "main", state, event);
            state = next.0;
            action = next.1;
        }
    }

    fn remove(&mut self, m: &WorktreeManager, branch: &str) -> Result<String, WorktreeError> {
        let (mut state, mut action) = m.remove(branch);
        loop {
            if let Action::Finish(r) = action {
                return r;
            }
            let event = self.act(&action);
            let next = m.remove_step(branch, state, event);
            state = next.0;
            action = next.1;
        }
    }
}

#[test]
fn create_checks_out_a_branch() {
    let mut repo = Repo::new();
    let wt = repo.create(&manager(&[], &[]), "feature-x").unwrap();
    assert_eq!(wt, "/tmp/x/worktrees/feature-x");
    assert_eq!(repo.branches, strings(&["main", "feature-x"]));
    assert!(repo.hooks.is_empty());
}

#[test]
fn create_twice_is_a_typed_git_error() {
    let mut repo = Repo::new();
    let mgr = manager(&[], &[]);
    repo.create(&mgr, "dup").unwrap();
    let err = repo.create(&mgr, "dup").unwrap_err();
    assert!(matches!(err, WorktreeError::Git { .. }), "got {err:?}");
}

#[test]
fn remotes_are_fetched_first() {
    let mgr = manager(&[], &[]);
    let (state, action) = mgr.create();
    assert_eq!(action, Action::Git(strings(&["remote"])));
    let (_, action) = mgr.create_step("b", "main", state, Ok("origin\n".to_owned()));
    match action {
        Action::Git(args) => assert_eq!(args[0], "fetch"),
        other => panic!("unexpected {other:?}"),
    }
}

#[test]
fn failing_setup_hook_rolls_back_worktree_and_branch() {
    let mut repo = Repo::new();
    repo.hook_fails = true;
    let mgr = manager(&["/bin/sh", "-c", "echo boom >&2; exit 1"], &[]);
    let err = repo.create(&mgr, "doomed").unwrap_err();
    match &err {
        WorktreeError::Hook { stderr } => assert!(stderr.contains("boom"), "stderr: {stderr}"),
        other => panic!("expected Hook error, got {other:?}"),
    }
    assert!(repo.worktrees.is_empty());
    assert_eq!(repo.branches, strings(&["main"]));
    // And a retry starts clean.
    repo.create(&manager(&[], &[]), "doomed").unwrap();
}

#[test]
fn remove_runs_teardown_then_deletes_worktree_and_branch() {
    let mut repo = Repo::new();
    let mgr = manager(&[], &["./teardown.sh"]);
    let wt = repo.create(&mgr, "gone").unwrap();
    repo.remove(&mgr, "gone").unwrap();
    assert_eq!(repo.hooks, vec![wt]);
    assert!(repo.worktrees.is_empty());
    assert_eq!(repo.branches, strings(&["main"]));
}

#[test]
fn failing_teardown_hook_does_not_block_removal() {
    let mut repo = Repo::new();
    let mgr = manager(&[], &["/bin/sh", "-c", "exit 1"]);
    repo.create(&mgr, "stubborn").unwrap();
    repo.hook_fails = true;
    repo.remove(&mgr, "stubborn").unwrap();
    assert!(repo.worktrees.is_empty());
}

#[test]
fn listings_pair_paths_with_branches() {
    let out = "worktree /r\nHEAD 1\nbranch refs/heads/main\n\n\
               worktree /w/detached\nHEAD 2\ndetached\n\n\
               worktree /w/alpha\nHEAD 3\nbranch refs/heads/feature/alpha\n";
    let listed = manager(&[], &[]).list(out);
    assert_eq!(
        listed,
        vec![
            ("/r".to_owned(), "main".to_owned()),
            ("/w/alpha".to_owned(), "feature/alpha".to_owned()),
        ]
    );
    assert_eq!(manager(&[], &[]).current_head("abc\n"), "abc");
}

#[test]
fn branch_slashes_are_sanitized_in_path_only() {
    let mut repo = Repo::new();
    let mgr = manager(&[], &[]);
    let wt = repo.create(&mgr, "feature/deep/thing").unwrap();
    assert_eq!(wt, "/tmp/x/worktrees/feature-deep-thing");
    assert_eq!(repo.worktrees, vec![wt]);
    assert_eq!(repo.branches[1], "feature/deep/thing");
    // remove() resolves the same sanitized path.
    repo.remove(&mgr, "feature/deep/thing").unwrap();
    assert!(repo.worktrees.is_empty());
}

#[test]
fn hooks_see_their_surroundings() {
    assert_eq!(
        hook_env(&manager(&[], &[]).spec, "/w", "hooked"),
        vec![
            ("YARD_WORKTREE".to_owned(), "/w".to_owned()),
            ("YARD_BRANCH".to_owned(), "hooked".to_owned()),
            ("YARD_REPO".to_owned(), "/tmp/x/repo".to_owned()),
        ]
    );
    assert_eq!(
        git_argv("/r", &strings(&["status"])),
        strings(&["-C", "/r", "status"])
    );
}

#[test]
fn worktree_errors_are_spelled_out() {
    let git = git_outcome(
        "/r",
        &strings(&["status"]),
        false,
        String::new(),
        "fatal\n".to_owned(),
    )
    .unwrap_err();
    assert!(git.message().contains("status") && git.message().contains("fatal"));
    assert!(WorktreeError::Io("denied".to_owned())
        .message()
        .contains("denied"));
}
