//! Git worktrees: one per work item.
//!
//! Git and the hooks are run as external programs by whoever drives a
//! [`WorktreeManager`]: the manager says what to run next, the driver runs it
//! and hands back what came of it.

use crate::paths;
use crate::paths::join_path;
use crate::text;
use crate::text::{chars_of, copy_strings, join, lines, replace_chars, strip_prefix, trim};
use vstd::prelude::*;
use vstd::string::*;

verus! {

/// Where and how worktrees of one repository are managed. A hook is a program
/// with its arguments; an empty one means no hook.
#[derive(Debug)]
pub struct WorktreeSpec {
    /// Path of the main clone.
    pub repo_path: String,
    /// Directory under which worktrees are created, one child per branch.
    pub worktrees_root: String,
    /// Run inside a worktree after it was added.
    pub setup_hook: Vec<String>,
    /// Run inside a worktree before it is removed.
    pub teardown_hook: Vec<String>,
}

#[verifier::ext_equal]
pub struct WorktreeSpecView {
    pub repo_path: Seq<char>,
    pub worktrees_root: Seq<char>,
    pub setup_hook: Seq<Seq<char>>,
    pub teardown_hook: Seq<Seq<char>>,
}

impl View for WorktreeSpec {
    type V = WorktreeSpecView;

    open spec fn view(&self) -> WorktreeSpecView {
        WorktreeSpecView {
            repo_path: self.repo_path@,
            worktrees_root: self.worktrees_root@,
            setup_hook: text::texts(self.setup_hook@),
            teardown_hook: text::texts(self.teardown_hook@),
        }
    }
}

impl Clone for WorktreeSpec {
    fn clone(&self) -> (r: WorktreeSpec)
        ensures
            r@ == self@,
    {
        WorktreeSpec {
            repo_path: self.repo_path.clone(),
            worktrees_root: self.worktrees_root.clone(),
            setup_hook: copy_strings(&self.setup_hook),
            teardown_hook: copy_strings(&self.teardown_hook),
        }
    }
}

#[derive(Debug, PartialEq, Eq)]
pub enum WorktreeError {
    /// A git invocation failed.
    Git { cmd: String, stderr: String },
    /// A hook failed.
    Hook { stderr: String },
    Io(String),
}

#[verifier::ext_equal]
pub enum WorktreeErrorView {
    Git { cmd: Seq<char>, stderr: Seq<char> },
    Hook { stderr: Seq<char> },
    Io(Seq<char>),
}

impl View for WorktreeError {
    type V = WorktreeErrorView;

    open spec fn view(&self) -> WorktreeErrorView {
        match *self {
            WorktreeError::Git { cmd, stderr } => WorktreeErrorView::Git {
                cmd: cmd@,
                stderr: stderr@,
            },
            WorktreeError::Hook { stderr } => WorktreeErrorView::Hook { stderr: stderr@ },
            WorktreeError::Io(msg) => WorktreeErrorView::Io(msg@),
        }
    }
}

/// The message shown for an error.
pub open spec fn worktree_message(e: WorktreeErrorView) -> Seq<char> {
    match e {
        WorktreeErrorView::Git { cmd, stderr } => "git command failed: `"@ + cmd + "`: "@ + stderr,
        WorktreeErrorView::Hook { stderr } => "setup hook failed: "@ + stderr,
        WorktreeErrorView::Io(msg) => "io error: "@ + msg,
    }
}

impl WorktreeError {
    pub fn message(&self) -> (r: String)
        ensures
            r@ == worktree_message(self@),
    {
        match self {
            WorktreeError::Git { cmd, stderr } => "git command failed: `".to_owned().concat(
                cmd.as_str(),
            ).concat("`: ").concat(stderr.as_str()),
            WorktreeError::Hook { stderr } => "setup hook failed: ".to_owned().concat(
                stderr.as_str(),
            ),
            WorktreeError::Io(msg) => "io error: ".to_owned().concat(msg.as_str()),
        }
    }
}

// ---------------------------------------------------------------------------
// Running git

/// Arguments of `git` for a command in a directory.
pub open spec fn git_args(dir: Seq<char>, args: Seq<Seq<char>>) -> Seq<Seq<char>> {
    seq!["-C"@, dir] + args
}

pub fn git_argv(dir: &str, args: &Vec<String>) -> (r: Vec<String>)
    ensures
        text::texts(r@) == git_args(dir@, text::texts(args@)),
{
    let mut out: Vec<String> = vec!["-C".to_owned(), dir.to_owned()];
    let mut i: usize = 0;
    while i < args.len()
        invariant
            i <= args@.len(),
            out@.len() == 2 + i,
            out@[0]@ == "-C"@,
            out@[1]@ == dir@,
            forall|k: int| 0 <= k < i ==> (#[trigger] out@[2 + k])@ == args@[k]@,
        decreases args@.len() - i,
    {
        out.push(args[i].clone());
        i = i + 1;
    }
    proof {
        let want = git_args(dir@, text::texts(args@));
        assert(text::texts(out@).len() == want.len());
        assert forall|k: int| 0 <= k < want.len() implies text::texts(out@)[k] == want[k] by {
            if k >= 2 {
                assert(out@[2 + (k - 2)]@ == args@[k - 2]@);
            }
        }
        assert(text::texts(out@) == want);
    }
    out
}

/// What a finished git invocation means: its output, or the command line and
/// its error output.
pub fn git_outcome(
    dir: &str,
    args: &Vec<String>,
    success: bool,
    stdout: String,
    stderr: String,
) -> (r: Result<String, WorktreeError>)
    ensures
        match r {
            Ok(out) => success && out@ == stdout@,
            Err(e) => !success && e@ == (WorktreeErrorView::Git {
                cmd: "git -C "@ + dir@ + " "@ + text::joined(text::texts(args@), " "@),
                stderr: stderr@,
            }),
        },
{
    if success {
        Ok(stdout)
    } else {
        Err(
            WorktreeError::Git {
                cmd: "git -C ".to_owned().concat(dir).concat(" ").concat(join(args, " ").as_str()),
                stderr,
            },
        )
    }
}

/// What a finished hook means.
pub fn hook_outcome(success: bool, stderr: String) -> (r: Result<String, WorktreeError>)
    ensures
        match r {
            Ok(out) => success && out@ == Seq::<char>::empty(),
            Err(e) => !success && e@ == (WorktreeErrorView::Hook { stderr: stderr@ }),
        },
{
    if success {
        Ok(String::new())
    } else {
        Err(WorktreeError::Hook { stderr })
    }
}

/// Environment of a hook, beyond what it inherits.
pub fn hook_env(spec: &WorktreeSpec, worktree: &str, branch: &str) -> (r: Vec<(String, String)>)
    ensures
        r@.len() == 3,
        r@[0].0@ == "YARD_WORKTREE"@ && r@[0].1@ == worktree@,
        r@[1].0@ == "YARD_BRANCH"@ && r@[1].1@ == branch@,
        r@[2].0@ == "YARD_REPO"@ && r@[2].1@ == spec.repo_path@,
{
    vec![
        ("YARD_WORKTREE".to_owned(), worktree.to_owned()),
        ("YARD_BRANCH".to_owned(), branch.to_owned()),
        ("YARD_REPO".to_owned(), spec.repo_path.clone()),
    ]
}

// ---------------------------------------------------------------------------
// Steps

/// What to do next.
#[derive(Debug, PartialEq, Eq)]
pub enum Action {
    /// Run git in the managed repository.
    Git(Vec<String>),
    /// Create a directory and its parents.
    CreateDir(String),
    /// Run a hook inside the worktree.
    Hook { argv: Vec<String>, worktree: String },
    /// Nothing more: the worktree's path, or why there is none.
    Finish(Result<String, WorktreeError>),
}

#[verifier::ext_equal]
pub enum ActionView {
    Git(Seq<Seq<char>>),
    CreateDir(Seq<char>),
    Hook { argv: Seq<Seq<char>>, worktree: Seq<char> },
    Finish(Result<Seq<char>, WorktreeErrorView>),
}

pub open spec fn result_view(r: Result<String, WorktreeError>) -> Result<
    Seq<char>,
    WorktreeErrorView,
> {
    match r {
        Ok(s) => Ok(s@),
        Err(e) => Err(e@),
    }
}

impl View for Action {
    type V = ActionView;

    open spec fn view(&self) -> ActionView {
        match *self {
            Action::Git(args) => ActionView::Git(text::texts(args@)),
            Action::CreateDir(dir) => ActionView::CreateDir(dir@),
            Action::Hook { argv, worktree } => ActionView::Hook {
                argv: text::texts(argv@),
                worktree: worktree@,
            },
            Action::Finish(r) => ActionView::Finish(result_view(r)),
        }
    }
}

/// Where the creation of a worktree stands.
#[derive(Debug, PartialEq, Eq)]
pub enum CreateState {
    ListingRemotes,
    Fetching,
    MakingRoot,
    Adding,
    SettingUp,
    /// Rolling back after the setup hook failed.
    Removing(WorktreeError),
    /// Rolling back: deleting the branch.
    Deleting(WorktreeError),
    Finished,
}

#[verifier::ext_equal]
pub enum CreateStateView {
    ListingRemotes,
    Fetching,
    MakingRoot,
    Adding,
    SettingUp,
    Removing(WorktreeErrorView),
    Deleting(WorktreeErrorView),
    Finished,
}

impl View for CreateState {
    type V = CreateStateView;

    open spec fn view(&self) -> CreateStateView {
        match *self {
            CreateState::ListingRemotes => CreateStateView::ListingRemotes,
            CreateState::Fetching => CreateStateView::Fetching,
            CreateState::MakingRoot => CreateStateView::MakingRoot,
            CreateState::Adding => CreateStateView::Adding,
            CreateState::SettingUp => CreateStateView::SettingUp,
            CreateState::Removing(e) => CreateStateView::Removing(e@),
            CreateState::Deleting(e) => CreateStateView::Deleting(e@),
            CreateState::Finished => CreateStateView::Finished,
        }
    }
}

/// The directory of a branch's worktree: `/` in the branch becomes `-`.
pub open spec fn path_of(root: Seq<char>, branch: Seq<char>) -> Seq<char> {
    paths::joined_path(root, text::mapped_chars(branch, '/', '/', '-'))
}

pub open spec fn remove_args(path: Seq<char>) -> Seq<Seq<char>> {
    seq!["worktree"@, "remove"@, "--force"@, path]
}

pub open spec fn delete_args(branch: Seq<char>) -> Seq<Seq<char>> {
    seq!["branch"@, "-D"@, branch]
}

/// Creating a worktree: refresh remote refs where there is a remote, make the
/// root directory, add the worktree on a new branch, run the setup hook. A
/// failed setup hook rolls worktree and branch back; its error is reported
/// whatever becomes of the rollback.
pub open spec fn create_next(
    spec: WorktreeSpecView,
    branch: Seq<char>,
    base: Seq<char>,
    state: CreateStateView,
    event: Result<Seq<char>, WorktreeErrorView>,
) -> (CreateStateView, ActionView) {
    let path = path_of(spec.worktrees_root, branch);
    match state {
        CreateStateView::ListingRemotes => match event {
            Err(e) => (CreateStateView::Finished, ActionView::Finish(Err(e))),
            Ok(out) => if text::trimmed(out).len() > 0 {
                (CreateStateView::Fetching, ActionView::Git(seq!["fetch"@, "--quiet"@]))
            } else {
                (CreateStateView::MakingRoot, ActionView::CreateDir(spec.worktrees_root))
            },
        },
        CreateStateView::Fetching => match event {
            Err(e) => (CreateStateView::Finished, ActionView::Finish(Err(e))),
            Ok(_) => (CreateStateView::MakingRoot, ActionView::CreateDir(spec.worktrees_root)),
        },
        CreateStateView::MakingRoot => match event {
            Err(e) => (CreateStateView::Finished, ActionView::Finish(Err(e))),
            Ok(_) => (
                CreateStateView::Adding,
                ActionView::Git(seq!["worktree"@, "add"@, path, "-b"@, branch, base]),
            ),
        },
        CreateStateView::Adding => match event {
            Err(e) => (CreateStateView::Finished, ActionView::Finish(Err(e))),
            Ok(_) => if spec.setup_hook.len() == 0 {
                (CreateStateView::Finished, ActionView::Finish(Ok(path)))
            } else {
                (
                    CreateStateView::SettingUp,
                    ActionView::Hook { argv: spec.setup_hook, worktree: path },
                )
            },
        },
        CreateStateView::SettingUp => match event {
            Ok(_) => (CreateStateView::Finished, ActionView::Finish(Ok(path))),
            Err(e) => (CreateStateView::Removing(e), ActionView::Git(remove_args(path))),
        },
        CreateStateView::Removing(hook) => match event {
            Ok(_) => (CreateStateView::Deleting(hook), ActionView::Git(delete_args(branch))),
            Err(_) => (CreateStateView::Finished, ActionView::Finish(Err(hook))),
        },
        CreateStateView::Deleting(hook) => (
            CreateStateView::Finished,
            ActionView::Finish(Err(hook)),
        ),
        CreateStateView::Finished => (CreateStateView::Finished, ActionView::Finish(Ok(path))),
    }
}

/// Where the removal of a worktree stands.
#[derive(Debug, Clone, Copy, PartialEq, Eq, Structural)]
pub enum RemoveState {
    TearingDown,
    Removing,
    Deleting,
    Finished,
}

/// Removing a worktree: run the teardown hook, whose failure stops nothing,
/// then remove the worktree and delete the branch.
pub open spec fn remove_next(
    spec: WorktreeSpecView,
    branch: Seq<char>,
    state: RemoveState,
    event: Result<Seq<char>, WorktreeErrorView>,
) -> (RemoveState, ActionView) {
    let path = path_of(spec.worktrees_root, branch);
    match state {
        RemoveState::TearingDown => (RemoveState::Removing, ActionView::Git(remove_args(path))),
        RemoveState::Removing => match event {
            Err(e) => (RemoveState::Finished, ActionView::Finish(Err(e))),
            Ok(_) => (RemoveState::Deleting, ActionView::Git(delete_args(branch))),
        },
        RemoveState::Deleting => match event {
            Err(e) => (RemoveState::Finished, ActionView::Finish(Err(e))),
            Ok(_) => (RemoveState::Finished, ActionView::Finish(Ok(path))),
        },
        RemoveState::Finished => (RemoveState::Finished, ActionView::Finish(Ok(path))),
    }
}

/// Whatever a rollback runs into, the hook's own error is what is reported.
pub proof fn lemma_rollback_reports_the_hook(
    spec: WorktreeSpecView,
    branch: Seq<char>,
    base: Seq<char>,
    hook: WorktreeErrorView,
    removed: Result<Seq<char>, WorktreeErrorView>,
    deleted: Result<Seq<char>, WorktreeErrorView>,
)
    ensures
        ({
            let failed = create_next(
                spec,
                branch,
                base,
                CreateStateView::SettingUp,
                Err(hook),
            );
            let after_remove = create_next(spec, branch, base, failed.0, removed);
            let after_delete = create_next(spec, branch, base, after_remove.0, deleted);
            &&& failed.1 == ActionView::Git(remove_args(path_of(spec.worktrees_root, branch)))
            &&& removed is Ok ==> after_remove.1 == ActionView::Git(delete_args(branch))
                && after_delete.1 == ActionView::Finish(Err(hook))
            &&& removed is Err ==> after_remove.1 == ActionView::Finish(Err(hook))
        }),
{
}

/// A worktree is removed with its branch whatever the teardown hook did.
pub proof fn lemma_teardown_never_blocks(
    spec: WorktreeSpecView,
    branch: Seq<char>,
    torn_down: Result<Seq<char>, WorktreeErrorView>,
)
    ensures
        remove_next(spec, branch, RemoveState::TearingDown, torn_down) == (
            RemoveState::Removing,
            ActionView::Git(remove_args(path_of(spec.worktrees_root, branch))),
        ),
{
}

/// The most actions that a creation may still take.
pub open spec fn actions_left(state: CreateStateView) -> nat {
    match state {
        CreateStateView::ListingRemotes => 7,
        CreateStateView::Fetching => 6,
        CreateStateView::MakingRoot => 5,
        CreateStateView::Adding => 4,
        CreateStateView::SettingUp => 3,
        CreateStateView::Removing(_) => 2,
        CreateStateView::Deleting(_) => 1,
        CreateStateView::Finished => 0,
    }
}

/// A creation ends: every action gets it closer to its result, and with the
/// last state comes the result.
pub proof fn lemma_creation_ends(
    spec: WorktreeSpecView,
    branch: Seq<char>,
    base: Seq<char>,
    state: CreateStateView,
    event: Result<Seq<char>, WorktreeErrorView>,
)
    requires
        !(state is Finished),
    ensures
        ({
            let (next, action) = create_next(spec, branch, base, state, event);
            &&& actions_left(next) < actions_left(state)
            &&& next is Finished <==> action is Finish
        }),
{
}

/// A removal ends: it never goes back to an earlier state, and with the last
/// state comes the result.
pub proof fn lemma_removal_ends(
    spec: WorktreeSpecView,
    branch: Seq<char>,
    state: RemoveState,
    event: Result<Seq<char>, WorktreeErrorView>,
)
    requires
        !(state is Finished),
    ensures
        ({
            let (next, action) = remove_next(spec, branch, state, event);
            &&& state is TearingDown ==> next is Removing
            &&& state is Removing ==> next is Deleting || next is Finished
            &&& state is Deleting ==> next is Finished
            &&& next is Finished <==> action is Finish
        }),
{
}

/// Creates, removes and lists the worktrees of one repository.
pub struct WorktreeManager {
    pub spec: WorktreeSpec,
}

fn remove_argv(path: &str) -> (r: Vec<String>)
    ensures
        text::texts(r@) == remove_args(path@),
{
    let v = vec![
        "worktree".to_owned(),
        "remove".to_owned(),
        "--force".to_owned(),
        path.to_owned(),
    ];
    assert(text::texts(v@) == remove_args(path@));
    v
}

fn delete_argv(branch: &str) -> (r: Vec<String>)
    ensures
        text::texts(r@) == delete_args(branch@),
{
    let v = vec!["branch".to_owned(), "-D".to_owned(), branch.to_owned()];
    assert(text::texts(v@) == delete_args(branch@));
    v
}

impl WorktreeManager {
    pub fn new(spec: WorktreeSpec) -> (r: WorktreeManager)
        ensures
            r.spec == spec,
    {
        WorktreeManager { spec }
    }

    /// The directory of a branch's worktree.
    pub fn worktree_path(&self, branch: &str) -> (r: String)
        ensures
            r@ == path_of(self.spec.worktrees_root@, branch@),
    {
        join_path(
            self.spec.worktrees_root.as_str(),
            replace_chars(branch, '/', '/', '-').as_str(),
        )
    }

    /// Starts the creation of a worktree.
    pub fn create(&self) -> (r: (CreateState, Action))
        ensures
            r.0@ == CreateStateView::ListingRemotes,
            r.1@ == ActionView::Git(seq!["remote"@]),
    {
        let args = vec!["remote".to_owned()];
        assert(text::texts(args@) == seq!["remote"@]);
        (CreateState::ListingRemotes, Action::Git(args))
    }

    /// Continues the creation of a worktree with what came of the last action.
    pub fn create_step(
        &self,
        branch: &str,
        base: &str,
        state: CreateState,
        event: Result<String, WorktreeError>,
    ) -> (r: (CreateState, Action))
        ensures
            (r.0@, r.1@) == create_next(self.spec@, branch@, base@, state@, result_view(event)),
            state is MakingRoot && event is Ok ==> (r.1@ matches ActionView::Git(args)
                && args.len() == 6 && args[0] == "worktree"@ && args[1] == "add"@ && args[3]
                == "-b"@ && args[4] == branch@ && args[5] == base@),
    {
        let path = self.worktree_path(branch);
        match state {
            CreateState::ListingRemotes => match event {
                Err(e) => (CreateState::Finished, Action::Finish(Err(e))),
                Ok(out) => if chars_of(trim(out.as_str()).as_str()).len() > 0 {
                    let args = vec!["fetch".to_owned(), "--quiet".to_owned()];
                    assert(text::texts(args@) == seq!["fetch"@, "--quiet"@]);
                    (CreateState::Fetching, Action::Git(args))
                } else {
                    (
                        CreateState::MakingRoot,
                        Action::CreateDir(self.spec.worktrees_root.clone()),
                    )
                },
            },
            CreateState::Fetching => match event {
                Err(e) => (CreateState::Finished, Action::Finish(Err(e))),
                Ok(_) => (
                    CreateState::MakingRoot,
                    Action::CreateDir(self.spec.worktrees_root.clone()),
                ),
            },
            CreateState::MakingRoot => match event {
                Err(e) => (CreateState::Finished, Action::Finish(Err(e))),
                Ok(_) => {
                    let args = vec![
                        "worktree".to_owned(),
                        "add".to_owned(),
                        path.clone(),
                        "-b".to_owned(),
                        branch.to_owned(),
                        base.to_owned(),
                    ];
                    assert(text::texts(args@) == seq![
                        "worktree"@,
                        "add"@,
                        path@,
                        "-b"@,
                        branch@,
                        base@,
                    ]);
                    (CreateState::Adding, Action::Git(args))
                },
            },
            CreateState::Adding => match event {
                Err(e) => (CreateState::Finished, Action::Finish(Err(e))),
                Ok(_) => if self.spec.setup_hook.len() == 0 {
                    (CreateState::Finished, Action::Finish(Ok(path)))
                } else {
                    (
                        CreateState::SettingUp,
                        Action::Hook {
                            argv: copy_strings(&self.spec.setup_hook),
                            worktree: path,
                        },
                    )
                },
            },
            CreateState::SettingUp => match event {
                Ok(_) => (CreateState::Finished, Action::Finish(Ok(path))),
                Err(e) => (CreateState::Removing(e), Action::Git(remove_argv(path.as_str()))),
            },
            CreateState::Removing(hook) => match event {
                Ok(_) => (CreateState::Deleting(hook), Action::Git(delete_argv(branch))),
                Err(_) => (CreateState::Finished, Action::Finish(Err(hook))),
            },
            CreateState::Deleting(hook) => (CreateState::Finished, Action::Finish(Err(hook))),
            CreateState::Finished => (CreateState::Finished, Action::Finish(Ok(path))),
        }
    }

    /// Starts the removal of a worktree: with its teardown hook where there is
    /// one.
    pub fn remove(&self, branch: &str) -> (r: (RemoveState, Action))
        ensures
            ({
                let path = path_of(self.spec.worktrees_root@, branch@);
                if self.spec.teardown_hook@.len() == 0 {
                    r.0 == RemoveState::Removing && r.1@ == ActionView::Git(remove_args(path))
                } else {
                    r.0 == RemoveState::TearingDown && r.1@ == (ActionView::Hook {
                        argv: text::texts(self.spec.teardown_hook@),
                        worktree: path,
                    })
                }
            }),
    {
        let path = self.worktree_path(branch);
        if self.spec.teardown_hook.len() == 0 {
            (RemoveState::Removing, Action::Git(remove_argv(path.as_str())))
        } else {
            (
                RemoveState::TearingDown,
                Action::Hook { argv: copy_strings(&self.spec.teardown_hook), worktree: path },
            )
        }
    }

    /// Continues the removal of a worktree with what came of the last action.
    pub fn remove_step(
        &self,
        branch: &str,
        state: RemoveState,
        event: Result<String, WorktreeError>,
    ) -> (r: (RemoveState, Action))
        ensures
            (r.0, r.1@) == remove_next(self.spec@, branch@, state, result_view(event)),
    {
        let path = self.worktree_path(branch);
        match state {
            RemoveState::TearingDown => (
                RemoveState::Removing,
                Action::Git(remove_argv(path.as_str())),
            ),
            RemoveState::Removing => match event {
                Err(e) => (RemoveState::Finished, Action::Finish(Err(e))),
                Ok(_) => (RemoveState::Deleting, Action::Git(delete_argv(branch))),
            },
            RemoveState::Deleting => match event {
                Err(e) => (RemoveState::Finished, Action::Finish(Err(e))),
                Ok(_) => (RemoveState::Finished, Action::Finish(Ok(path))),
            },
            RemoveState::Finished => (RemoveState::Finished, Action::Finish(Ok(path))),
        }
    }
}

// ---------------------------------------------------------------------------
// Listing

/// What the lines of a listing say after the lines read so far: the path of
/// the entry that is open, and the entries that have both path and branch.
pub open spec fn listed(rows: Seq<Seq<char>>) -> (Option<Seq<char>>, Seq<(Seq<char>, Seq<char>)>)
    decreases rows.len(),
{
    if rows.len() == 0 {
        (None, Seq::empty())
    } else {
        let (open, entries) = listed(rows.drop_last());
        let line = rows.last();
        match text::after_prefix(line, "worktree "@) {
            Some(path) => (Some(path), entries),
            None => match text::after_prefix(line, "branch "@) {
                Some(rest) => match open {
                    Some(path) => {
                        let branch = match text::after_prefix(rest, "refs/heads/"@) {
                            Some(short) => short,
                            None => rest,
                        };
                        (None, entries.push((path, branch)))
                    },
                    None => (None, entries),
                },
                None => if line.len() == 0 {
                    (None, entries)
                } else {
                    (open, entries)
                },
            },
        }
    }
}

pub open spec fn entry_texts(v: Seq<(String, String)>) -> Seq<(Seq<char>, Seq<char>)> {
    Seq::new(v.len(), |i: int| (v[i].0@, v[i].1@))
}

impl WorktreeManager {
    /// Arguments that make git list its worktrees in a stable format.
    pub fn list_args(&self) -> (r: Vec<String>)
        ensures
            text::texts(r@) == seq!["worktree"@, "list"@, "--porcelain"@],
    {
        let v = vec!["worktree".to_owned(), "list".to_owned(), "--porcelain".to_owned()];
        assert(text::texts(v@) == seq!["worktree"@, "list"@, "--porcelain"@]);
        v
    }

    /// All worktrees as (path, branch) pairs, from the porcelain listing.
    /// Entries without a branch are skipped.
    pub fn list(&self, output: &str) -> (r: Vec<(String, String)>)
        ensures
            entry_texts(r@) == listed(text::line_texts(output@)).1,
    {
        let rows = lines(output);
        let ghost all = text::texts(rows@);
        let mut entries: Vec<(String, String)> = Vec::new();
        let mut open: Option<String> = None;
        let mut i: usize = 0;
        assert(all.take(0) == Seq::<Seq<char>>::empty());
        assert(entry_texts(entries@) == Seq::<(Seq<char>, Seq<char>)>::empty());
        while i < rows.len()
            invariant
                i <= rows@.len(),
                all == text::texts(rows@),
                listed(all.take(i as int)) == (text::opt_text(open), entry_texts(entries@)),
            decreases rows@.len() - i,
        {
            let ghost before = entry_texts(entries@);
            assert(all.take(i + 1).drop_last() == all.take(i as int));
            assert(all.take(i + 1).last() == rows@[i as int]@);
            let line = rows[i].as_str();
            if let Some(path) = strip_prefix(line, "worktree ") {
                open = Some(path);
            } else if let Some(rest) = strip_prefix(line, "branch ") {
                if let Some(path) = open {
                    let branch = match strip_prefix(rest.as_str(), "refs/heads/") {
                        Some(short) => short,
                        None => rest,
                    };
                    let ghost pair = (path@, branch@);
                    entries.push((path, branch));
                    assert(entry_texts(entries@) == before.push(pair));
                }
                open = None;
            } else if chars_of(line).len() == 0 {
                open = None;
            }
            i = i + 1;
        }
        assert(all.take(i as int) == all);
        entries
    }

    /// Arguments that make git name the commit checked out in a worktree.
    pub fn head_args(&self) -> (r: Vec<String>)
        ensures
            text::texts(r@) == seq!["rev-parse"@, "HEAD"@],
    {
        let v = vec!["rev-parse".to_owned(), "HEAD".to_owned()];
        assert(text::texts(v@) == seq!["rev-parse"@, "HEAD"@]);
        v
    }

    /// The commit checked out in a worktree, from git's output.
    pub fn current_head(&self, output: &str) -> (r: String)
        ensures
            r@ == text::trimmed(output@),
    {
        trim(output)
    }
}

} // verus!
