//! What stands behind a gate, and whose word opens it.

use crate::gate;
use crate::gate::{GateLevel, GatedAction};
use crate::json::JsonView;
use crate::laws::json::holds;
use crate::laws::storage as storage_laws;
use crate::storage;
use crate::storage::{StorageErrorView, TablesView};
use vstd::prelude::*;
use vstd::string::*;

verus! {

/// Only what others can see waits for a human; a push of a branch is done and
/// told, and what stays local is done.
pub proof fn lemma_levels_decide(level: GateLevel)
    ensures
        gate::decision_at(level) is RequireApproval <==> level is Public,
        gate::decision_at(level) is AutoNotify <==> level is RemotePrivate,
        gate::decision_at(level) is Auto <==> level is Local,
{
}

/// Without overrides, pushes go through and everything else waits for a human.
pub proof fn lemma_defaults(action: GatedAction)
    ensures
        ({
            let decision = gate::decision_at(gate::level_under(Seq::empty(), action));
            if action is PushBranch || action is ForcePushBranch {
                decision is AutoNotify
            } else {
                decision is RequireApproval
            }
        }),
{
}

/// The last override of an action decides; the other actions do not notice it.
pub proof fn lemma_last_override_wins(
    overrides: Seq<(GatedAction, GateLevel)>,
    action: GatedAction,
    level: GateLevel,
    other: GatedAction,
)
    ensures
        gate::level_under(overrides.push((action, level)), action) == level,
        other != action ==> gate::level_under(overrides.push((action, level)), other)
            == gate::level_under(overrides, other),
{
    assert(overrides.push((action, level)).drop_last() == overrides);
}

/// A lock changes nothing but overrides that would take a public action down.
pub proof fn lemma_lock_only_lifts(lock: bool, action: GatedAction, level: GateLevel)
    ensures
        level is Public ==> gate::clamped(lock, action, level) is Public,
        !lock ==> gate::clamped(lock, action, level) == level,
        action is PushBranch || action is ForcePushBranch ==> gate::clamped(lock, action, level)
            == level,
        lock && !(action is PushBranch) && !(action is ForcePushBranch) ==> gate::clamped(
            lock,
            action,
            level,
        ) is Public,
{
}

/// Levels go by their own names.
pub proof fn lemma_level_names()
    ensures
        gate::level_text(GateLevel::Local) == "local"@,
        gate::level_text(GateLevel::RemotePrivate) == "remote_private"@,
        gate::level_text(GateLevel::Public) == "public"@,
{
}

/// Actions go by their own names.
pub proof fn lemma_action_names()
    ensures
        gate::action_text(GatedAction::PushBranch) == "push_branch"@,
        gate::action_text(GatedAction::ForcePushBranch) == "force_push_branch"@,
        gate::action_text(GatedAction::CreatePr) == "create_pr"@,
        gate::action_text(GatedAction::EditPr) == "edit_pr"@,
        gate::action_text(GatedAction::PostComment) == "post_comment"@,
        gate::action_text(GatedAction::ReplyReview) == "reply_review"@,
        gate::action_text(GatedAction::Merge) == "merge"@,
        gate::action_text(GatedAction::TrackerTransition) == "tracker_transition"@,
{
}

/// An approval stands in the request and in the log, under the name of whoever
/// gave it.
pub proof fn lemma_approval_is_recorded(
    t: TablesView,
    u: TablesView,
    id: int,
    actor: Seq<char>,
    now: Seq<char>,
)
    requires
        storage::tables_ok(t),
        gate::approved(t, id, actor, now) == Ok::<TablesView, StorageErrorView>(u),
    ensures
        storage::gate_of(u, id) matches Some(g) && g.status == "approved"@ && g.resolved_by == Some(
            actor,
        ) && g.resolved_at == Some(now),
        u.events.last().kind == "gate_approved"@,
        u.events.last().actor == actor,
        u.items == t.items,
{
    reveal_strlit("gate_");
    reveal_strlit("approved");
    reveal_strlit("gate_approved");
    storage::lemma_resolution_is_recorded(t, u, id, "approved"@, actor, None, now);
    assert("gate_"@ + "approved"@ == "gate_approved"@);
}

/// A rejection stands in the request and in the log, under the name of whoever
/// gave it and with the reason.
pub proof fn lemma_rejection_is_recorded(
    t: TablesView,
    u: TablesView,
    id: int,
    actor: Seq<char>,
    reason: Seq<char>,
    now: Seq<char>,
)
    requires
        storage::tables_ok(t),
        gate::rejected(t, id, actor, reason, now) == Ok::<TablesView, StorageErrorView>(u),
    ensures
        storage::gate_of(u, id) matches Some(g) && g.status == "rejected"@ && g.resolved_by == Some(
            actor,
        ) && g.resolved_at == Some(now),
        u.events.last().kind == "gate_rejected"@,
        u.events.last().actor == actor,
        holds(u.events.last().payload, "reason"@, JsonView::Str(reason)),
        u.items == t.items,
{
    reveal_strlit("gate_");
    reveal_strlit("rejected");
    reveal_strlit("gate_rejected");
    storage::lemma_resolution_is_recorded(t, u, id, "rejected"@, actor, Some(reason), now);
    storage_laws::lemma_verdict_is_told(t, u, id, "rejected"@, actor, Some(reason), now);
    assert("gate_"@ + "rejected"@ == "gate_rejected"@);
}

} // verus!
