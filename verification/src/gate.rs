//! Gate engine: every side effect is local, remote-private or public, and
//! public actions require explicit human approval, every single time.
//!
//! Gating happens around the adapters, which only execute approved payloads.
//! Requests and verdicts are stored together with their audit events.

use crate::clock;
use crate::clock::now_rfc3339;
use crate::json::Json;
use crate::storage;
use crate::storage::{GateRequestRow, Storage, StorageError, StorageErrorView, TablesView};
use crate::text;
use crate::text::{debug_quoted, text_eq};
use vstd::prelude::*;
use vstd::string::*;

verus! {

/// Blast radius of a gated action, from the least severe to the most.
#[derive(Debug, Clone, Copy, PartialEq, Eq, PartialOrd, Ord, Hash, Structural)]
pub enum GateLevel {
    /// Worktree edits, local commits, tests: automatic.
    Local,
    /// Push to a feature branch: automatic, with a notification.
    RemotePrivate,
    /// Publicly visible: explicit human approval, never remembered.
    Public,
}

/// What is done with an action at some level.
#[derive(Debug, Clone, Copy, PartialEq, Eq, Hash, Structural)]
pub enum Decision {
    Auto,
    AutoNotify,
    RequireApproval,
}

/// Side effects that a gate stands in front of.
#[derive(Debug, Clone, Copy, PartialEq, Eq, Hash, Structural)]
pub enum GatedAction {
    PushBranch,
    ForcePushBranch,
    CreatePr,
    EditPr,
    PostComment,
    ReplyReview,
    Merge,
    TrackerTransition,
}

pub open spec fn level_text(l: GateLevel) -> Seq<char> {
    match l {
        GateLevel::Local => "local"@,
        GateLevel::RemotePrivate => "remote_private"@,
        GateLevel::Public => "public"@,
    }
}

pub open spec fn decision_at(l: GateLevel) -> Decision {
    match l {
        GateLevel::Local => Decision::Auto,
        GateLevel::RemotePrivate => Decision::AutoNotify,
        GateLevel::Public => Decision::RequireApproval,
    }
}

/// The text under which an action is stored.
pub open spec fn action_text(a: GatedAction) -> Seq<char> {
    match a {
        GatedAction::PushBranch => "push_branch"@,
        GatedAction::ForcePushBranch => "force_push_branch"@,
        GatedAction::CreatePr => "create_pr"@,
        GatedAction::EditPr => "edit_pr"@,
        GatedAction::PostComment => "post_comment"@,
        GatedAction::ReplyReview => "reply_review"@,
        GatedAction::Merge => "merge"@,
        GatedAction::TrackerTransition => "tracker_transition"@,
    }
}

/// Branch pushes are remote-private, everything publicly visible is public.
/// Local actions pass no gate.
pub open spec fn default_of(a: GatedAction) -> GateLevel {
    match a {
        GatedAction::PushBranch => GateLevel::RemotePrivate,
        GatedAction::ForcePushBranch => GateLevel::RemotePrivate,
        _ => GateLevel::Public,
    }
}

/// The action that a text names.
pub open spec fn action_named(text: Seq<char>) -> Option<GatedAction> {
    if exists|a: GatedAction| #[trigger] action_text(a) == text {
        Some(choose|a: GatedAction| #[trigger] action_text(a) == text)
    } else {
        None
    }
}

impl GateLevel {
    pub fn as_str(self) -> (r: &'static str)
        ensures
            r@ == level_text(self),
    {
        match self {
            GateLevel::Local => "local",
            GateLevel::RemotePrivate => "remote_private",
            GateLevel::Public => "public",
        }
    }

    /// What is done with an action at this level.
    pub fn decision(self) -> (r: Decision)
        ensures
            r == decision_at(self),
    {
        match self {
            GateLevel::Local => Decision::Auto,
            GateLevel::RemotePrivate => Decision::AutoNotify,
            GateLevel::Public => Decision::RequireApproval,
        }
    }
}

impl GatedAction {
    pub const ALL: [GatedAction; 8] = [
        GatedAction::PushBranch,
        GatedAction::ForcePushBranch,
        GatedAction::CreatePr,
        GatedAction::EditPr,
        GatedAction::PostComment,
        GatedAction::ReplyReview,
        GatedAction::Merge,
        GatedAction::TrackerTransition,
    ];

    pub fn as_str(self) -> (r: &'static str)
        ensures
            r@ == action_text(self),
    {
        match self {
            GatedAction::PushBranch => "push_branch",
            GatedAction::ForcePushBranch => "force_push_branch",
            GatedAction::CreatePr => "create_pr",
            GatedAction::EditPr => "edit_pr",
            GatedAction::PostComment => "post_comment",
            GatedAction::ReplyReview => "reply_review",
            GatedAction::Merge => "merge",
            GatedAction::TrackerTransition => "tracker_transition",
        }
    }

    pub fn default_level(self) -> (r: GateLevel)
        ensures
            r == default_of(self),
    {
        match self {
            GatedAction::PushBranch | GatedAction::ForcePushBranch => GateLevel::RemotePrivate,
            GatedAction::CreatePr
            | GatedAction::EditPr
            | GatedAction::PostComment
            | GatedAction::ReplyReview
            | GatedAction::Merge
            | GatedAction::TrackerTransition => GateLevel::Public,
        }
    }

    /// The action that a text names.
    pub fn parse(s: &str) -> (r: Result<GatedAction, ParseGatedActionError>)
        ensures
            match (r, action_named(s@)) {
                (Ok(action), Some(named)) => action == named && action_text(action) == s@,
                (Err(e), None) => e@ == s@,
                _ => false,
            },
    {
        proof {
            lemma_action_texts_differ();
        }
        let all = GatedAction::ALL;
        let mut i: usize = 0;
        while i < 8
            invariant
                i <= 8,
                all@ == GatedAction::ALL@,
                forall|k: int| 0 <= k < i ==> action_text(#[trigger] all@[k]) != s@,
                forall|a: GatedAction, b: GatedAction|
                    #[trigger] action_text(a) == #[trigger] action_text(b) ==> a == b,
            decreases 8 - i,
        {
            if text_eq(all[i].as_str(), s) {
                assert(action_text(all@[i as int]) == s@);
                return Ok(all[i]);
            }
            i = i + 1;
        }
        proof {
            assert forall|x: GatedAction| #[trigger] action_text(x) != s@ by {
                let k = action_rank(x);
                assert(all@[k] == x);
            }
        }
        Err(ParseGatedActionError(s.to_owned()))
    }
}

spec fn action_rank(a: GatedAction) -> int {
    match a {
        GatedAction::PushBranch => 0,
        GatedAction::ForcePushBranch => 1,
        GatedAction::CreatePr => 2,
        GatedAction::EditPr => 3,
        GatedAction::PostComment => 4,
        GatedAction::ReplyReview => 5,
        GatedAction::Merge => 6,
        GatedAction::TrackerTransition => 7,
    }
}

/// No two actions are stored under the same text.
pub proof fn lemma_action_texts_differ()
    ensures
        forall|a: GatedAction, b: GatedAction|
            #[trigger] action_text(a) == #[trigger] action_text(b) ==> a == b,
{
    reveal_strlit("push_branch");
    reveal_strlit("force_push_branch");
    reveal_strlit("create_pr");
    reveal_strlit("edit_pr");
    reveal_strlit("post_comment");
    reveal_strlit("reply_review");
    reveal_strlit("merge");
    reveal_strlit("tracker_transition");
    assert forall|a: GatedAction, b: GatedAction|
        #[trigger] action_text(a) == #[trigger] action_text(b) implies a == b by {
        assert(action_text(a).len() == action_text(b).len());
        assert(action_text(a)[0] == action_text(b)[0]);
    }
}

/// Storing an action and reading it back gives the action.
pub proof fn lemma_action_round_trip(a: GatedAction)
    ensures
        action_named(action_text(a)) == Some(a),
{
    lemma_action_texts_differ();
}

#[derive(Debug, PartialEq, Eq)]
pub struct ParseGatedActionError(String);

impl View for ParseGatedActionError {
    type V = Seq<char>;

    closed spec fn view(&self) -> Seq<char> {
        self.0@
    }
}

impl Clone for ParseGatedActionError {
    fn clone(&self) -> (r: ParseGatedActionError)
        ensures
            r@ == self@,
    {
        ParseGatedActionError(self.0.clone())
    }
}

impl ParseGatedActionError {
    pub fn message(&self) -> (r: String)
        ensures
            r@ == "unknown gated action: "@ + text::debug_text(self@),
    {
        "unknown gated action: ".to_owned().concat(debug_quoted(self.0.as_str()).as_str())
    }
}

impl std::str::FromStr for GatedAction {
    type Err = ParseGatedActionError;

    fn from_str(s: &str) -> (r: Result<GatedAction, ParseGatedActionError>)
        ensures
            match (r, action_named(s@)) {
                (Ok(action), Some(named)) => action == named && action_text(action) == s@,
                (Err(e), None) => e@ == s@,
                _ => false,
            },
    {
        GatedAction::parse(s)
    }
}

// ---------------------------------------------------------------------------
// Policy

/// An override as the policy keeps it: under a locked public gate, a public
/// action stays public.
pub open spec fn clamped(lock: bool, action: GatedAction, level: GateLevel) -> GateLevel {
    if lock && default_of(action) is Public {
        GateLevel::Public
    } else {
        level
    }
}

/// The last override of an action.
pub open spec fn override_of(
    overrides: Seq<(GatedAction, GateLevel)>,
    action: GatedAction,
) -> Option<GateLevel>
    decreases overrides.len(),
{
    if overrides.len() == 0 {
        None
    } else if overrides.last().0 == action {
        Some(overrides.last().1)
    } else {
        override_of(overrides.drop_last(), action)
    }
}

/// The level of an action: its last override, else its default.
pub open spec fn level_under(
    overrides: Seq<(GatedAction, GateLevel)>,
    action: GatedAction,
) -> GateLevel {
    match override_of(overrides, action) {
        Some(level) => level,
        None => default_of(action),
    }
}

/// The overrides that a policy keeps.
pub open spec fn kept_overrides(
    lock: bool,
    overrides: Seq<(GatedAction, GateLevel)>,
) -> Seq<(GatedAction, GateLevel)> {
    Seq::new(
        overrides.len(),
        |i: int| (overrides[i].0, clamped(lock, overrides[i].0, overrides[i].1)),
    )
}

/// Gate levels: defaults plus overrides. Under a locked public gate no
/// override takes a public action below `Public`; upgrades are always
/// honoured.
#[derive(Debug)]
pub struct GatePolicy {
    overrides: Vec<(GatedAction, GateLevel)>,
}

impl View for GatePolicy {
    type V = Seq<(GatedAction, GateLevel)>;

    closed spec fn view(&self) -> Seq<(GatedAction, GateLevel)> {
        self.overrides@
    }
}

impl Clone for GatePolicy {
    fn clone(&self) -> (r: GatePolicy)
        ensures
            r@ == self@,
    {
        let mut overrides: Vec<(GatedAction, GateLevel)> = Vec::new();
        let mut i: usize = 0;
        while i < self.overrides.len()
            invariant
                i <= self.overrides@.len(),
                overrides@ == self.overrides@.take(i as int),
            decreases self.overrides@.len() - i,
        {
            overrides.push(self.overrides[i]);
            assert(overrides@ == self.overrides@.take(i + 1));
            i = i + 1;
        }
        assert(self.overrides@.take(i as int) == self.overrides@);
        GatePolicy { overrides }
    }
}

impl Default for GatePolicy {
    fn default() -> (r: GatePolicy)
        ensures
            r@ == Seq::<(GatedAction, GateLevel)>::empty(),
    {
        GatePolicy { overrides: Vec::new() }
    }
}

impl GatePolicy {
    pub fn new(lock_public_gate: bool, overrides: Vec<(GatedAction, GateLevel)>) -> (r: GatePolicy)
        ensures
            r@ == kept_overrides(lock_public_gate, overrides@),
    {
        let mut kept: Vec<(GatedAction, GateLevel)> = Vec::new();
        let mut i: usize = 0;
        while i < overrides.len()
            invariant
                i <= overrides@.len(),
                kept@ == kept_overrides(lock_public_gate, overrides@).take(i as int),
            decreases overrides@.len() - i,
        {
            let (action, level) = overrides[i];
            let level = if lock_public_gate && action.default_level() == GateLevel::Public {
                GateLevel::Public
            } else {
                level
            };
            kept.push((action, level));
            assert(kept@ == kept_overrides(lock_public_gate, overrides@).take(i + 1));
            i = i + 1;
        }
        assert(kept@ == kept_overrides(lock_public_gate, overrides@));
        GatePolicy { overrides: kept }
    }

    pub fn level(&self, action: GatedAction) -> (r: GateLevel)
        ensures
            r == level_under(self@, action),
    {
        let mut i: usize = self.overrides.len();
        assert(self.overrides@.take(i as int) == self.overrides@);
        while i > 0
            invariant
                i <= self.overrides@.len(),
                override_of(self.overrides@.take(i as int), action) == override_of(
                    self.overrides@,
                    action,
                ),
            decreases i,
        {
            let (overridden, level) = self.overrides[i - 1];
            assert(self.overrides@.take(i as int).last() == self.overrides@[i - 1]);
            if overridden == action {
                return level;
            }
            assert(self.overrides@.take(i as int).drop_last() == self.overrides@.take(i - 1));
            i = i - 1;
        }
        action.default_level()
    }

    pub fn decision(&self, action: GatedAction) -> (r: Decision)
        ensures
            r == decision_at(level_under(self@, action)),
    {
        self.level(action).decision()
    }
}

/// Under a locked public gate every action that is public by default requires
/// approval, whatever the overrides say.
pub proof fn lemma_locked_gate_holds(
    overrides: Seq<(GatedAction, GateLevel)>,
    action: GatedAction,
)
    requires
        default_of(action) is Public,
    ensures
        level_under(kept_overrides(true, overrides), action) is Public,
        decision_at(level_under(kept_overrides(true, overrides), action)) is RequireApproval,
    decreases overrides.len(),
{
    let kept = kept_overrides(true, overrides);
    if overrides.len() > 0 {
        lemma_locked_gate_holds(overrides.drop_last(), action);
        assert(kept.drop_last() == kept_overrides(true, overrides.drop_last()));
    }
}

/// Every override that does not lower a public action under a lock is honoured
/// as it stands.
pub proof fn lemma_overrides_are_honoured(
    lock: bool,
    overrides: Seq<(GatedAction, GateLevel)>,
    action: GatedAction,
)
    requires
        !lock || !(default_of(action) is Public),
    ensures
        level_under(kept_overrides(lock, overrides), action) == level_under(overrides, action),
    decreases overrides.len(),
{
    let kept = kept_overrides(lock, overrides);
    if overrides.len() > 0 {
        lemma_overrides_are_honoured(lock, overrides.drop_last(), action);
        assert(kept.drop_last() == kept_overrides(lock, overrides.drop_last()));
    }
}

// ---------------------------------------------------------------------------
// Engine

/// Typed façade over the stored gate queue. Requests and verdicts are stored
/// together with their audit events.
pub struct GateEngine<'a> {
    pub storage: &'a mut Storage,
}

impl<'a> GateEngine<'a> {
    pub fn new(storage: &'a mut Storage) -> (r: GateEngine<'a>)
        ensures
            *r.storage == *old(storage),
            *final(storage) == *final(r.storage),
    {
        GateEngine { storage }
    }

    /// Queues an action for approval at a given time. The payload is the exact
    /// side effect to execute once approved. Yields the request's id.
    pub fn request_at(
        &mut self,
        work_item_id: i64,
        action: GatedAction,
        payload: &Json,
        now: &str,
    ) -> (r: Result<i64, StorageError>)
        requires
            old(self).storage.wf(),
        ensures
            final(self).storage.wf(),
            *final(final(self).storage) == *final(old(self).storage),
            storage::id_result(
                r,
                storage::gate_created(
                    old(self).storage@.tables,
                    work_item_id as int,
                    action_text(action),
                    payload@,
                    now@,
                ),
            ),
            storage::settled(
                old(self).storage@,
                final(self).storage@,
                storage::tables_part(
                    storage::gate_created(
                        old(self).storage@.tables,
                        work_item_id as int,
                        action_text(action),
                        payload@,
                        now@,
                    ),
                ),
            ),
    {
        self.storage.create_gate_request_at(work_item_id, action.as_str(), payload, now)
    }

    /// Approves a pending request at a given time. A request is resolved at
    /// most once.
    pub fn approve_at(&mut self, id: i64, actor: &str, now: &str) -> (r: Result<(), StorageError>)
        requires
            old(self).storage.wf(),
        ensures
            final(self).storage.wf(),
            *final(final(self).storage) == *final(old(self).storage),
            storage::unit_result(r, approved(old(self).storage@.tables, id as int, actor@, now@)),
            storage::settled(
                old(self).storage@,
                final(self).storage@,
                approved(old(self).storage@.tables, id as int, actor@, now@),
            ),
    {
        self.storage.resolve_gate_request_at(id, "approved", actor, None, now)
    }

    /// Rejects a pending request with a reason at a given time. A request is
    /// resolved at most once.
    pub fn reject_at(&mut self, id: i64, actor: &str, reason: &str, now: &str) -> (r: Result<
        (),
        StorageError,
    >)
        requires
            old(self).storage.wf(),
        ensures
            final(self).storage.wf(),
            *final(final(self).storage) == *final(old(self).storage),
            storage::unit_result(
                r,
                rejected(old(self).storage@.tables, id as int, actor@, reason@, now@),
            ),
            storage::settled(
                old(self).storage@,
                final(self).storage@,
                rejected(old(self).storage@.tables, id as int, actor@, reason@, now@),
            ),
    {
        self.storage.resolve_gate_request_at(id, "rejected", actor, Some(reason), now)
    }

    /// [`GateEngine::request_at`] now.
    pub fn request(&mut self, work_item_id: i64, action: GatedAction, payload: &Json) -> (r: Result<
        i64,
        StorageError,
    >)
        requires
            old(self).storage.wf(),
        ensures
            final(self).storage.wf(),
            *final(final(self).storage) == *final(old(self).storage),
            exists|now: Seq<char>|
                clock::is_stamp(now) && {
                    let outcome = #[trigger] storage::gate_created(
                        old(self).storage@.tables,
                        work_item_id as int,
                        action_text(action),
                        payload@,
                        now,
                    );
                    storage::id_result(r, outcome) && storage::settled(
                        old(self).storage@,
                        final(self).storage@,
                        storage::tables_part(outcome),
                    )
                },
    {
        self.storage.create_gate_request(work_item_id, action.as_str(), payload)
    }

    /// [`GateEngine::approve_at`] now.
    pub fn approve(&mut self, id: i64, actor: &str) -> (r: Result<(), StorageError>)
        requires
            old(self).storage.wf(),
        ensures
            final(self).storage.wf(),
            *final(final(self).storage) == *final(old(self).storage),
            exists|now: Seq<char>|
                clock::is_stamp(now) && {
                    let outcome = #[trigger] approved(
                        old(self).storage@.tables,
                        id as int,
                        actor@,
                        now,
                    );
                    storage::unit_result(r, outcome) && storage::settled(
                        old(self).storage@,
                        final(self).storage@,
                        outcome,
                    )
                },
    {
        let now = now_rfc3339();
        self.approve_at(id, actor, now.as_str())
    }

    /// [`GateEngine::reject_at`] now.
    pub fn reject(&mut self, id: i64, actor: &str, reason: &str) -> (r: Result<(), StorageError>)
        requires
            old(self).storage.wf(),
        ensures
            final(self).storage.wf(),
            *final(final(self).storage) == *final(old(self).storage),
            exists|now: Seq<char>|
                clock::is_stamp(now) && {
                    let outcome = #[trigger] rejected(
                        old(self).storage@.tables,
                        id as int,
                        actor@,
                        reason@,
                        now,
                    );
                    storage::unit_result(r, outcome) && storage::settled(
                        old(self).storage@,
                        final(self).storage@,
                        outcome,
                    )
                },
    {
        let now = now_rfc3339();
        self.reject_at(id, actor, reason, now.as_str())
    }

    /// Pending requests, oldest first; with an id, those of one work item.
    pub fn pending(&self, work_item_id: Option<i64>) -> (r: Result<
        Vec<GateRequestRow>,
        StorageError,
    >)
        ensures
            r matches Ok(v) && storage::gate_views(v@) == storage::pending_of(
                old(self.storage)@.tables,
                storage::opt_id(work_item_id),
            ),
    {
        self.storage.pending_gate_requests(work_item_id)
    }
}

/// Approving a gate request.
pub open spec fn approved(t: TablesView, id: int, actor: Seq<char>, now: Seq<char>) -> Result<
    TablesView,
    StorageErrorView,
> {
    storage::gate_resolved(t, id, "approved"@, actor, None, now)
}

/// Rejecting a gate request with a reason.
pub open spec fn rejected(
    t: TablesView,
    id: int,
    actor: Seq<char>,
    reason: Seq<char>,
    now: Seq<char>,
) -> Result<TablesView, StorageErrorView> {
    storage::gate_resolved(t, id, "rejected"@, actor, Some(reason), now)
}

/// After a verdict, approving or rejecting the same request again is refused.
pub proof fn lemma_one_verdict(
    t: TablesView,
    u: TablesView,
    id: int,
    actor: Seq<char>,
    reason: Seq<char>,
    now: Seq<char>,
    later: Seq<char>,
)
    requires
        storage::tables_ok(t),
        approved(t, id, actor, now) == Ok::<TablesView, StorageErrorView>(u) || rejected(
            t,
            id,
            actor,
            reason,
            now,
        ) == Ok::<TablesView, StorageErrorView>(u),
    ensures
        approved(u, id, actor, later) is Err,
        rejected(u, id, actor, reason, later) is Err,
{
    reveal_strlit("approved");
    reveal_strlit("rejected");
    reveal_strlit("pending");
    assert("approved"@.len() != "pending"@.len());
    assert("rejected"@.len() != "pending"@.len());
    if approved(t, id, actor, now) == Ok::<TablesView, StorageErrorView>(u) {
        storage::lemma_resolve_once(
            t,
            u,
            id,
            "approved"@,
            actor,
            None,
            now,
            "approved"@,
            actor,
            None,
            later,
        );
        storage::lemma_resolve_once(
            t,
            u,
            id,
            "approved"@,
            actor,
            None,
            now,
            "rejected"@,
            actor,
            Some(reason),
            later,
        );
    } else {
        storage::lemma_resolve_once(
            t,
            u,
            id,
            "rejected"@,
            actor,
            Some(reason),
            now,
            "approved"@,
            actor,
            None,
            later,
        );
        storage::lemma_resolve_once(
            t,
            u,
            id,
            "rejected"@,
            actor,
            Some(reason),
            now,
            "rejected"@,
            actor,
            Some(reason),
            later,
        );
    }
}

} // verus!
