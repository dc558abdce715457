//! What the steps that create, remove and list worktrees run and report.

use crate::laws::text as text_laws;
use crate::text;
use crate::worktree;
use crate::worktree::{
    ActionView, CreateStateView, RemoveState, WorktreeErrorView, WorktreeSpecView,
};
use vstd::prelude::*;
use vstd::string::*;

verus! {

/// Whether a directory's name is that of a branch with `-` for every `/`.
pub open spec fn named_for(name: Seq<char>, branch: Seq<char>) -> bool {
    &&& name.len() == branch.len()
    &&& !name.contains('/')
    &&& forall|i: int| 0 <= i < branch.len() && branch[i] == '/' ==> #[trigger] name[i] == '-'
    &&& forall|i: int| 0 <= i < branch.len() && branch[i] != '/' ==> #[trigger] name[i] == branch[i]
}

/// Whether `path` is the directory of a branch under a root: one component
/// below it, named for the branch.
pub open spec fn houses(path: Seq<char>, root: Seq<char>, branch: Seq<char>) -> bool {
    exists|name: Seq<char>| #[trigger]
        named_for(name, branch) && (if root.len() == 0 || root.last() == '/' {
            path == root + name
        } else {
            path == root + "/"@ + name
        })
}

/// Whether an action is this `worktree add`.
pub open spec fn adds(
    action: ActionView,
    root: Seq<char>,
    branch: Seq<char>,
    base: Seq<char>,
) -> bool {
    action matches ActionView::Git(args) && args.len() == 6 && args[0] == "worktree"@ && args[1]
        == "add"@ && houses(args[2], root, branch) && args[3] == "-b"@ && args[4] == branch
        && args[5] == base
}

/// Whether an action is the forced removal of a branch's worktree.
pub open spec fn drops_worktree(action: ActionView, root: Seq<char>, branch: Seq<char>) -> bool {
    action matches ActionView::Git(args) && args.len() == 4 && args[0] == "worktree"@ && args[1]
        == "remove"@ && args[2] == "--force"@ && houses(args[3], root, branch)
}

/// Whether an action deletes a branch.
pub open spec fn drops_branch(action: ActionView, branch: Seq<char>) -> bool {
    action matches ActionView::Git(args) && args.len() == 3 && args[0] == "branch"@ && args[1]
        == "-D"@ && args[2] == branch
}

/// The directory of a branch lies directly under the root, whatever the branch
/// is called.
pub proof fn lemma_path_houses(root: Seq<char>, branch: Seq<char>)
    ensures
        houses(worktree::path_of(root, branch), root, branch),
{
    let name = text::mapped_chars(branch, '/', '/', '-');
    reveal_strlit("/");
    assert(named_for(name, branch));
    assert(!(name.len() > 0 && name[0] == '/'));
    assert(root + "/"@ == root.push('/'));
}

/// Branches that differ in more than `/` and `-` have directories of their own.
pub proof fn lemma_paths_differ(root: Seq<char>, a: Seq<char>, b: Seq<char>, i: int)
    requires
        a.len() == b.len() ==> 0 <= i < a.len() && a[i] != b[i] && !(a[i] == '/' && b[i] == '-')
            && !(a[i] == '-' && b[i] == '/'),
    ensures
        worktree::path_of(root, a) != worktree::path_of(root, b),
{
    let x = text::mapped_chars(a, '/', '/', '-');
    let y = text::mapped_chars(b, '/', '/', '-');
    assert(!(x.len() > 0 && x[0] == '/'));
    assert(!(y.len() > 0 && y[0] == '/'));
    let front = if root.len() == 0 || root.last() == '/' {
        root
    } else {
        root.push('/')
    };
    assert(worktree::path_of(root, a) == front + x);
    assert(worktree::path_of(root, b) == front + y);
    if front + x == front + y {
        assert(x.len() == y.len());
        assert((front + x)[front.len() + i] == x[i]);
        assert((front + y)[front.len() + i] == y[i]);
    }
}

/// After the root directory was made, the worktree is added: in the branch's
/// directory, on that new branch, from the base that the caller named.
pub proof fn lemma_worktree_is_added_from_its_base(
    spec: WorktreeSpecView,
    branch: Seq<char>,
    base: Seq<char>,
    out: Seq<char>,
)
    ensures
        ({
            let (next, action) = worktree::create_next(
                spec,
                branch,
                base,
                CreateStateView::MakingRoot,
                Ok(out),
            );
            next is Adding && adds(action, spec.worktrees_root, branch, base)
        }),
{
    lemma_path_houses(spec.worktrees_root, branch);
}

/// Creations that differ in their branch or in their base run different
/// commands.
pub proof fn lemma_base_decides_the_command(
    spec: WorktreeSpecView,
    branch: Seq<char>,
    base: Seq<char>,
    other_branch: Seq<char>,
    other_base: Seq<char>,
    out: Seq<char>,
)
    requires
        branch != other_branch || base != other_base,
    ensures
        worktree::create_next(spec, branch, base, CreateStateView::MakingRoot, Ok(out)).1
            != worktree::create_next(
            spec,
            other_branch,
            other_base,
            CreateStateView::MakingRoot,
            Ok(out),
        ).1,
{
    let a = worktree::create_next(spec, branch, base, CreateStateView::MakingRoot, Ok(out)).1;
    let b = worktree::create_next(
        spec,
        other_branch,
        other_base,
        CreateStateView::MakingRoot,
        Ok(out),
    ).1;
    if a == b {
        assert(a->Git_0[4] == b->Git_0[4]);
        assert(a->Git_0[5] == b->Git_0[5]);
    }
}

/// Remote refs are refreshed exactly where git listed a remote; either way the
/// root directory is made before anything is added.
pub proof fn lemma_fetch_needs_a_remote(
    spec: WorktreeSpecView,
    branch: Seq<char>,
    base: Seq<char>,
    out: Seq<char>,
    fetched: Seq<char>,
)
    ensures
        ({
            let (next, action) = worktree::create_next(
                spec,
                branch,
                base,
                CreateStateView::ListingRemotes,
                Ok(out),
            );
            let (later, then_action) = worktree::create_next(
                spec,
                branch,
                base,
                CreateStateView::Fetching,
                Ok(fetched),
            );
            let blank = text_laws::all_chars(out, text::white());
            &&& !blank ==> next is Fetching && (action matches ActionView::Git(args)
                && args.len() == 2 && args[0] == "fetch"@ && args[1] == "--quiet"@)
            &&& blank ==> next is MakingRoot && action == ActionView::CreateDir(
                spec.worktrees_root,
            )
            &&& later is MakingRoot && then_action == ActionView::CreateDir(spec.worktrees_root)
        }),
{
    text_laws::lemma_trimmed_to_nothing(out);
}

/// What fails before the worktree is there ends the creation with that very
/// error.
pub proof fn lemma_early_failure_is_reported(
    spec: WorktreeSpecView,
    branch: Seq<char>,
    base: Seq<char>,
    state: CreateStateView,
    error: WorktreeErrorView,
)
    requires
        state is ListingRemotes || state is Fetching || state is MakingRoot || state is Adding,
    ensures
        worktree::create_next(spec, branch, base, state, Err(error)) == (
            CreateStateView::Finished,
            ActionView::Finish(Err(error)),
        ),
{
}

/// An added worktree is set up in its own directory by the repository's hook,
/// and is ready at once where there is none.
pub proof fn lemma_added_worktree_is_set_up(
    spec: WorktreeSpecView,
    branch: Seq<char>,
    base: Seq<char>,
    out: Seq<char>,
)
    ensures
        ({
            let (next, action) = worktree::create_next(
                spec,
                branch,
                base,
                CreateStateView::Adding,
                Ok(out),
            );
            &&& spec.setup_hook.len() > 0 ==> next is SettingUp && (
            action matches ActionView::Hook { argv, worktree } && argv == spec.setup_hook && houses(
                worktree,
                spec.worktrees_root,
                branch,
            ))
            &&& spec.setup_hook.len() == 0 ==> next is Finished && (
            action matches ActionView::Finish(Ok(path)) && houses(
                path,
                spec.worktrees_root,
                branch,
            ))
        }),
{
    lemma_path_houses(spec.worktrees_root, branch);
}

/// A worktree whose hook succeeded is reported by its directory.
pub proof fn lemma_set_up_worktree_is_reported(
    spec: WorktreeSpecView,
    branch: Seq<char>,
    base: Seq<char>,
    out: Seq<char>,
)
    ensures
        worktree::create_next(
            spec,
            branch,
            base,
            CreateStateView::SettingUp,
            Ok(out),
        ).1 matches ActionView::Finish(Ok(path)) && houses(path, spec.worktrees_root, branch),
{
    lemma_path_houses(spec.worktrees_root, branch);
}

/// A failed hook takes the worktree back, then its branch, and its own error is
/// what the creation ends with.
pub proof fn lemma_failed_hook_rolls_back(
    spec: WorktreeSpecView,
    branch: Seq<char>,
    base: Seq<char>,
    error: WorktreeErrorView,
    removed: Seq<char>,
    deleted: Result<Seq<char>, WorktreeErrorView>,
)
    ensures
        ({
            let first = worktree::create_next(
                spec,
                branch,
                base,
                CreateStateView::SettingUp,
                Err(error),
            );
            let second = worktree::create_next(spec, branch, base, first.0, Ok(removed));
            let third = worktree::create_next(spec, branch, base, second.0, deleted);
            &&& drops_worktree(first.1, spec.worktrees_root, branch)
            &&& drops_branch(second.1, branch)
            &&& third.1 == ActionView::Finish(Err(error))
        }),
{
    lemma_path_houses(spec.worktrees_root, branch);
}

/// A creation ends well only with the branch's directory, and only where the
/// last action succeeded.
pub proof fn lemma_creation_ends_well_only_after_success(
    spec: WorktreeSpecView,
    branch: Seq<char>,
    base: Seq<char>,
    state: CreateStateView,
    event: Result<Seq<char>, WorktreeErrorView>,
    path: Seq<char>,
)
    requires
        !(state is Finished),
        worktree::create_next(spec, branch, base, state, event).1 == ActionView::Finish(Ok(path)),
    ensures
        event is Ok,
        state is SettingUp || (state is Adding && spec.setup_hook.len() == 0),
        houses(path, spec.worktrees_root, branch),
{
    lemma_path_houses(spec.worktrees_root, branch);
}

/// A removal takes the worktree away whatever its teardown hook did, and
/// deletes the branch once the worktree is gone.
pub proof fn lemma_removal_drops_worktree_then_branch(
    spec: WorktreeSpecView,
    branch: Seq<char>,
    torn_down: Result<Seq<char>, WorktreeErrorView>,
    removed: Seq<char>,
    deleted: Seq<char>,
)
    ensures
        ({
            let first = worktree::remove_next(spec, branch, RemoveState::TearingDown, torn_down);
            let second = worktree::remove_next(spec, branch, first.0, Ok(removed));
            let third = worktree::remove_next(spec, branch, second.0, Ok(deleted));
            &&& drops_worktree(first.1, spec.worktrees_root, branch)
            &&& drops_branch(second.1, branch)
            &&& third.1 is Finish && third.1->Finish_0 is Ok
        }),
{
    lemma_path_houses(spec.worktrees_root, branch);
}

/// What fails once the worktree is being removed ends the removal with that
/// very error.
pub proof fn lemma_failed_removal_is_reported(
    spec: WorktreeSpecView,
    branch: Seq<char>,
    state: RemoveState,
    error: WorktreeErrorView,
)
    requires
        state is Removing || state is Deleting,
    ensures
        worktree::remove_next(spec, branch, state, Err(error)).1 == ActionView::Finish(Err(error)),
{
}

/// An entry of the listing with a branch is read as its path and its branch; one
/// without is passed over.
pub proof fn lemma_listing_is_read(
    rows: Seq<Seq<char>>,
    path: Seq<char>,
    head: Seq<char>,
    branch: Seq<char>,
)
    ensures
        worktree::listed(
            rows.push("worktree "@ + path).push("HEAD "@ + head).push(
                "branch "@ + ("refs/heads/"@ + branch),
            ).push(Seq::empty()),
        ).1 == worktree::listed(rows).1.push((path, branch)),
        worktree::listed(
            rows.push("worktree "@ + path).push("HEAD "@ + head).push("detached"@).push(
                Seq::empty(),
            ),
        ).1 == worktree::listed(rows).1,
        worktree::listed(Seq::empty()).1 == Seq::<(Seq<char>, Seq<char>)>::empty(),
{
    reveal_strlit("worktree ");
    reveal_strlit("HEAD ");
    reveal_strlit("branch ");
    reveal_strlit("detached");
    let a = rows.push("worktree "@ + path);
    let b = a.push("HEAD "@ + head);
    let c = b.push("branch "@ + ("refs/heads/"@ + branch));
    let d = c.push(Seq::empty());
    text_laws::lemma_behind_a_prefix("worktree "@, path, Seq::empty());
    text_laws::lemma_behind_a_prefix("branch "@, "refs/heads/"@ + branch, Seq::empty());
    text_laws::lemma_behind_a_prefix("refs/heads/"@, branch, Seq::empty());
    assert(a.drop_last() == rows);
    assert(b.drop_last() == a);
    assert(c.drop_last() == b);
    assert(d.drop_last() == c);
    assert(worktree::listed(a) == (Some(path), worktree::listed(rows).1));
    let row = "HEAD "@ + head;
    assert(row[0] == 'H');
    assert("worktree "@[0] == 'w');
    assert("branch "@[0] == 'b');
    lemma_other_opening(row, "worktree "@);
    lemma_other_opening(row, "branch "@);
    assert(worktree::listed(b) == worktree::listed(a));
    let named = "branch "@ + ("refs/heads/"@ + branch);
    assert(named[0] == 'b');
    lemma_other_opening(named, "worktree "@);
    assert(worktree::listed(c) == (None::<Seq<char>>, worktree::listed(rows).1.push((path, branch))));
    assert(text::after_prefix(Seq::empty(), "worktree "@) is None);
    assert(text::after_prefix(Seq::empty(), "branch "@) is None);
    assert(worktree::listed(d).1 == worktree::listed(c).1);
    let e = b.push("detached"@);
    let f = e.push(Seq::empty());
    assert(e.drop_last() == b);
    assert(f.drop_last() == e);
    lemma_other_opening("detached"@, "worktree "@);
    lemma_other_opening("detached"@, "branch "@);
    assert(worktree::listed(e).1 == worktree::listed(b).1);
    assert(worktree::listed(f).1 == worktree::listed(e).1);
}

proof fn lemma_other_opening(s: Seq<char>, prefix: Seq<char>)
    requires
        s.len() > 0,
        prefix.len() > 0,
        s[0] != prefix[0],
    ensures
        text::after_prefix(s, prefix) is None,
{
    if text::opens_with(s, prefix) {
        assert(s.take(prefix.len() as int)[0] == s[0]);
    }
}

/// A blank line ends an entry: a branch that is named behind it belongs to no
/// worktree, and neither does one that stands alone.
pub proof fn lemma_blank_line_ends_an_entry(rows: Seq<Seq<char>>, name: Seq<char>)
    ensures
        worktree::listed(rows.push(Seq::empty()).push("branch "@ + name)).1 == worktree::listed(
            rows,
        ).1,
        worktree::listed(seq!["branch "@ + name]).1.len() == 0,
{
    reveal_strlit("worktree ");
    reveal_strlit("branch ");
    let a = rows.push(Seq::empty());
    let row = "branch "@ + name;
    let b = a.push(row);
    assert(a.drop_last() == rows);
    assert(b.drop_last() == a);
    assert(text::after_prefix(Seq::empty(), "worktree "@) is None);
    assert(text::after_prefix(Seq::empty(), "branch "@) is None);
    assert(worktree::listed(a).0 is None);
    assert(row[0] == 'b' && "worktree "@[0] == 'w');
    lemma_other_opening(row, "worktree "@);
    text_laws::lemma_behind_a_prefix("branch "@, name, Seq::empty());
    let one = seq![row];
    assert(one.drop_last() == Seq::<Seq<char>>::empty());
    assert(worktree::listed(one.drop_last()).0 is None);
}

/// The message of a failure says which command it was and what it left behind.
pub proof fn lemma_worktree_messages(cmd: Seq<char>, stderr: Seq<char>)
    ensures
        text::has_text(
            worktree::worktree_message(WorktreeErrorView::Git { cmd, stderr }),
            cmd,
        ),
        text::closes_with(
            worktree::worktree_message(WorktreeErrorView::Git { cmd, stderr }),
            stderr,
        ),
        text::closes_with(worktree::worktree_message(WorktreeErrorView::Hook { stderr }), stderr),
        text::closes_with(worktree::worktree_message(WorktreeErrorView::Io(stderr)), stderr),
{
    let a = "git command failed: `"@ + cmd + "`: "@;
    assert((a + stderr).skip(a.len() as int) == stderr);
    text::lemma_has_middle("git command failed: `"@, cmd, "`: "@ + stderr);
    assert("git command failed: `"@ + cmd + ("`: "@ + stderr) == a + stderr);
    let b = "setup hook failed: "@;
    assert((b + stderr).skip(b.len() as int) == stderr);
    let c = "io error: "@;
    assert((c + stderr).skip(c.len() as int) == stderr);
}

/// Git is run in the directory it is meant for, with the arguments as they are.
pub proof fn lemma_git_runs_in_its_directory(dir: Seq<char>, args: Seq<Seq<char>>)
    ensures
        worktree::git_args(dir, args).len() == args.len() + 2,
        worktree::git_args(dir, args)[0] == "-C"@,
        worktree::git_args(dir, args)[1] == dir,
        worktree::git_args(dir, args).skip(2) == args,
{
    assert(worktree::git_args(dir, args).skip(2) == args);
}

} // verus!
