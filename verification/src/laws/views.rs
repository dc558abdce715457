//! What the mathematical views of the library's data show: every part, as it
//! is.

use crate::adapters;
use crate::adapters::{
    AdapterError, AdapterErrorView, AdapterResult, AgentStatus, AgentTask, CheckRun, PrComment,
    PrDraft, PrRef, PrSnapshot, Review, Ticket, TicketKey,
};
use crate::config;
use crate::config::{Agent, Config, ConfigError, Segment};
use crate::forge_github as forge;
use crate::forge_github::ListQuery;
use crate::ipc::{GateInfo, RawResponse, Response};
use crate::json;
use crate::json::Json;
use crate::provider_github as provider;
use crate::provider_github::{Issue, ScanStep};
use crate::rest;
use crate::rest::{HttpReply, HttpRequest};
use crate::runner_omp as runner;
use crate::runner_omp::{BackendSpec, ProbeAction, ProbeEvent};
use crate::scheduler;
use crate::scheduler::{AddPlan, FinishStep, ProviderPlan};
use crate::secrets;
use crate::secrets::StoreKind;
use crate::state;
use crate::storage;
use crate::storage::{
    EventRow, GateRequestRow, GateView, ItemRecord, Snapshot, StorageError, StorageErrorView,
    TablesView, WorkItemRow, WorkItemView,
};
use crate::table;
use crate::text;
use crate::worktree;
use crate::worktree::{Action, WorktreeError, WorktreeSpec};
use vstd::prelude::*;
use vstd::string::*;

verus! {

// ---------------------------------------------------------------------------
// Values

/// A ticket shows its key, its texts, its assignee and what blocks it.
pub proof fn lemma_ticket_shows(t: Ticket, k: TicketKey)
    ensures
        t@.key == t.key@,
        t@.title == t.title@,
        t@.body == t.body@,
        t@.status == t.status@,
        t@.url == t.url@,
        t.assignee matches Some(a) ==> t@.assignee == Some(a@),
        t.assignee is None ==> t@.assignee is None,
        t@.blocked_by.len() == t.blocked_by@.len(),
        forall|i: int|
            0 <= i < t.blocked_by@.len() ==> #[trigger] t@.blocked_by[i] == t.blocked_by@[i]@,
        k@.provider == k.provider@,
        k@.key == k.key@,
{
}

/// A task shows its item, its worktree, its ticket and its instructions.
pub proof fn lemma_task_shows(t: AgentTask)
    ensures
        t@.work_item_id == t.work_item_id,
        t@.worktree == t.worktree@,
        t@.ticket == t.ticket@,
        t@.instructions == t.instructions@,
{
}

/// A status shows which it is, and its words.
pub proof fn lemma_status_shows(s: AgentStatus)
    ensures
        s is Running <==> s@ is Running,
        s matches AgentStatus::WaitingInput { prompt } ==> s@ is WaitingInput && s@->prompt
            == prompt@,
        s matches AgentStatus::Finished { success, summary } ==> s@ is Finished && s@->success
            == success && s@->summary == summary@,
        s matches AgentStatus::Failed { message } ==> s@ is Failed && s@->message == message@,
{
}

/// A pull request, its draft and its snapshot show their parts.
pub proof fn lemma_pull_requests_show(p: PrRef, d: PrDraft, s: PrSnapshot)
    ensures
        p@.repo == p.repo@ && p@.number == p.number,
        d@.repo == d.repo@ && d@.title == d.title@ && d@.body == d.body@ && d@.base == d.base@
            && d@.head == d.head@ && d@.draft == d.draft,
        s@.pr == s.pr@ && s@.state == s.state@ && s@.draft == s.draft && s@.base == s.base@
            && s@.head_sha == s.head_sha@ && s@.mergeable == s.mergeable,
        s@.checks.len() == s.checks@.len(),
        forall|i: int| 0 <= i < s.checks@.len() ==> #[trigger] s@.checks[i] == s.checks@[i]@,
        s@.reviews.len() == s.reviews@.len(),
        forall|i: int| 0 <= i < s.reviews@.len() ==> #[trigger] s@.reviews[i] == s.reviews@[i]@,
        s@.comments.len() == s.comments@.len(),
        forall|i: int| 0 <= i < s.comments@.len() ==> #[trigger] s@.comments[i] == s.comments@[i]@,
{
}

/// Check runs, reviews and comments show their parts.
pub proof fn lemma_parts_of_snapshots_show(c: CheckRun, r: Review, m: PrComment)
    ensures
        c@.name == c.name@ && c@.status == c.status@,
        c@.conclusion == text::opt_text(c.conclusion) && c@.url == text::opt_text(c.url),
        r@.author == r.author@ && r@.state == r.state@,
        m@.id == m.id && m@.author == m.author@ && m@.body == m.body@ && m@.is_bot == m.is_bot
            && m@.created_at == m.created_at@,
{
}

/// An error shows its kind and its words.
pub proof fn lemma_errors_show(a: AdapterError, c: ConfigError, w: WorktreeError, s: StorageError)
    ensures
        a matches AdapterError::Transient(m) ==> a@ == AdapterErrorView::Transient(m@),
        a matches AdapterError::Permanent(m) ==> a@ == AdapterErrorView::Permanent(m@),
        c matches ConfigError::Validation { msg } ==> c@ == (config::ConfigErrorView::Validation {
            msg: msg@,
        }),
        c matches ConfigError::Io { path, source } ==> c@ == (config::ConfigErrorView::Io {
            path: path@,
            source: source@,
        }),
        c matches ConfigError::Parse { path, source } ==> c@ == (config::ConfigErrorView::Parse {
            path: path@,
            source: source@,
        }),
        w matches WorktreeError::Git { cmd, stderr } ==> w@ == (worktree::WorktreeErrorView::Git {
            cmd: cmd@,
            stderr: stderr@,
        }),
        w matches WorktreeError::Hook { stderr } ==> w@ == (worktree::WorktreeErrorView::Hook {
            stderr: stderr@,
        }),
        w matches WorktreeError::Io(m) ==> w@ == worktree::WorktreeErrorView::Io(m@),
        s matches StorageError::Sqlite(m) ==> s@ == StorageErrorView::Sqlite(m@),
        s matches StorageError::WorkItemNotFound(id) ==> s@ == StorageErrorView::WorkItemNotFound(
            id as int,
        ),
        s matches StorageError::GateRequestNotFound(id) ==> s@
            == StorageErrorView::GateRequestNotFound(id as int),
        s matches StorageError::GateRequestNotPending { id, status } ==> s@ == (
        StorageErrorView::GateRequestNotPending { id: id as int, status: status@ }),
{
}

/// A stored row shows every one of its columns.
pub proof fn lemma_rows_show(w: WorkItemRow, e: EventRow, g: GateRequestRow, i: ItemRecord)
    ensures
        w@.id == w.id && w@.provider == w.provider@ && w@.ticket_key == w.ticket_key@ && w@.repo
            == w.repo@ && w@.state == w.state@,
        w@.branch == text::opt_text(w.branch) && w@.worktree_path == text::opt_text(
            w.worktree_path,
        ) && w@.pr_ref == text::opt_text(w.pr_ref),
        w@.created_at == w.created_at@ && w@.updated_at == w.updated_at@,
        e@.id == e.id && e@.work_item_id == storage::opt_id(e.work_item_id) && e@.ts == e.ts@
            && e@.actor == e.actor@ && e@.kind == e.kind@ && e@.payload == e.payload@,
        g@.id == g.id && g@.work_item_id == g.work_item_id && g@.action_kind == g.action_kind@
            && g@.payload == g.payload@ && g@.status == g.status@ && g@.created_at == g.created_at@,
        g@.resolved_at == text::opt_text(g.resolved_at) && g@.resolved_by == text::opt_text(
            g.resolved_by,
        ),
        i@.row == i.row@ && i@.agent_session == text::opt_text(i.agent_session),
        e.work_item_id matches Some(id) ==> storage::opt_id(e.work_item_id) == Some(id as int),
        e.work_item_id is None ==> storage::opt_id(e.work_item_id) is None,
{
}

/// A text that may be missing shows whether it is, and what it says.
pub proof fn lemma_optional_texts_show(s: Option<String>, r: Option<&str>)
    ensures
        s matches Some(t) ==> text::opt_text(s) == Some(t@),
        s is None ==> text::opt_text(s) is None,
        r matches Some(t) ==> text::opt_str_text(r) == Some(t@),
        r is None ==> text::opt_str_text(r) is None,
{
}

/// Requests, replies and responses show their parts.
pub proof fn lemma_messages_show(q: HttpRequest, a: HttpReply, r: Response, w: RawResponse)
    ensures
        q@.method == q.method && q@.url == q.url@,
        q.body matches Some(b) ==> q@.body == Some(b@),
        q.body is None ==> q@.body is None,
        q@.headers.len() == q.headers@.len(),
        forall|i: int|
            0 <= i < q.headers@.len() ==> #[trigger] q@.headers[i] == (
                q.headers@[i].0@,
                q.headers@[i].1@,
            ),
        a@.status == a.status && a@.body == a.body@,
        a@.remaining == text::opt_text(a.remaining) && a@.link == text::opt_text(a.link),
        r@.id == r.id,
        r.result matches Ok(data) ==> r@.result == Ok::<json::JsonView, Seq<char>>(data@),
        r.result matches Err(e) ==> r@.result == Err::<json::JsonView, Seq<char>>(e@),
        w@.id == w.id && w@.ok == w.ok && w@.error == text::opt_text(w.error),
        w.data matches Some(d) ==> w@.data == Some(d@),
        w.data is None ==> w@.data is None,
{
}

/// A JSON value shows what it is and what it holds.
pub proof fn lemma_json_shows(j: Json)
    ensures
        j is Null ==> j@ is Null,
        j matches Json::Bool(b) ==> j@ == json::JsonView::Bool(b),
        j matches Json::Int(n) ==> j@ == json::JsonView::Int(n as int),
        j matches Json::Str(s) ==> j@ == json::JsonView::Str(s@),
        j matches Json::List(v) ==> (j@ matches json::JsonView::List(items) && items.len()
            == v@.len() && forall|i: int| 0 <= i < v@.len() ==> #[trigger] items[i] == v@[i]@),
        j matches Json::Object(v) ==> (j@ matches json::JsonView::Object(fields) && fields.len()
            == v@.len() && forall|i: int|
            0 <= i < v@.len() ==> #[trigger] fields[i] == (v@[i].0@, v@[i].1@)),
{
    match j {
        Json::List(v) => {
            json::lemma_list_view(v@);
        },
        Json::Object(v) => {
            json::lemma_fields_view(v@);
        },
        _ => {},
    }
}

/// Settings of backends, worktrees and agents show their commands and places.
pub proof fn lemma_settings_show(b: BackendSpec, w: WorktreeSpec, a: Agent)
    ensures
        b@.start_cmd == text::texts(b.start_cmd@),
        b.resume_cmd matches Some(v) ==> b@.resume_cmd == Some(text::texts(v@)),
        b.resume_cmd is None ==> b@.resume_cmd is None,
        w@.repo_path == w.repo_path@ && w@.worktrees_root == w.worktrees_root@,
        w@.setup_hook == text::texts(w.setup_hook@),
        w@.teardown_hook == text::texts(w.teardown_hook@),
        a@.start_cmd == text::texts(a.start_cmd@),
        a.resume_cmd matches Some(v) ==> a@.resume_cmd == Some(text::texts(v@)),
        a.resume_cmd is None ==> a@.resume_cmd is None,
{
}

/// A step of finishing an item shows what is to be run, and where.
pub proof fn lemma_steps_show(f: FinishStep, a: Action, p: AddPlan, q: ProviderPlan)
    ensures
        f matches FinishStep::Check { argv, cwd } ==> f@ is Check && f@->Check_argv == text::texts(
            argv@,
        ) && f@->Check_cwd == cwd@,
        f matches FinishStep::Push { argv, cwd } ==> f@ is Push && f@->Push_argv == text::texts(
            argv@,
        ) && f@->Push_cwd == cwd@,
        f matches FinishStep::Fetch(key) ==> f@ == scheduler::FinishStepView::Fetch(key@),
        f is Stop <==> f@ is Stop,
        a matches Action::Git(args) ==> a@ == worktree::ActionView::Git(text::texts(args@)),
        a matches Action::CreateDir(dir) ==> a@ == worktree::ActionView::CreateDir(dir@),
        a matches Action::Hook { argv, worktree } ==> a@ == (worktree::ActionView::Hook {
            argv: text::texts(argv@),
            worktree: worktree@,
        }),
        a matches Action::Finish(Ok(path)) ==> a@ == worktree::ActionView::Finish(Ok(path@)),
        a matches Action::Finish(Err(e)) ==> a@ == worktree::ActionView::Finish(Err(e@)),
        p@.provider == p.provider@ && p@.key == p.key@ && p@.repo == p.repo@,
        q@.name == q.name@ && q@.user == q.user@ && q@.secret_key == q.secret_key@ && q@.api_url
            == q.api_url@ && q@.remote_repos == text::texts(q.remote_repos@),
{
}

/// An issue shows its parts, and a step of a scan what was found.
pub proof fn lemma_issues_show(i: Issue, s: ScanStep)
    ensures
        i@.number == i.number && i@.title == i.title@ && i@.state == i.state@ && i@.html_url
            == i.html_url@ && i@.pull_request == i.pull_request,
        i@.body == text::opt_text(i.body) && i@.assignee == text::opt_text(i.assignee),
        s matches ScanStep::Get(g) ==> s@ == (provider::ScanStepView::Get {
            repo: g.repo as int,
            url: g.url@,
            tickets: provider::ticket_views(g.tickets@),
        }),
        s matches ScanStep::Done(t) ==> s@ == provider::ScanStepView::Done(
            provider::ticket_views(t@),
        ),
{
}

/// What a probe does and hears shows as it is.
pub proof fn lemma_probes_show(a: ProbeAction, e: ProbeEvent)
    ensures
        a matches ProbeAction::Read(name) ==> a@ == runner::ProbeActionView::Read(name@),
        a is WaitForExit <==> a@ is WaitForExit,
        a is ReadOutcome <==> a@ is ReadOutcome,
        a matches ProbeAction::CheckPid(pid) ==> a@ == runner::ProbeActionView::CheckPid(
            pid as int,
        ),
        a matches ProbeAction::Finish(Ok(s)) ==> a@ == runner::ProbeActionView::Finish(Ok(s@)),
        a matches ProbeAction::Finish(Err(x)) ==> a@ == runner::ProbeActionView::Finish(Err(x@)),
        e matches ProbeEvent::Alive(b) ==> e@ == runner::ProbeEventView::Alive(b),
        e matches ProbeEvent::File(Ok(s)) ==> e@ == runner::ProbeEventView::File(
            Ok(text::opt_text(s)),
        ),
        e matches ProbeEvent::File(Err(x)) ==> e@ == runner::ProbeEventView::File(Err(x@)),
        e matches ProbeEvent::Outcome(Ok(Some(o))) ==> e@ == runner::ProbeEventView::Outcome(
            Ok(Some((o.0, o.1@))),
        ),
        e matches ProbeEvent::Outcome(Ok(None)) ==> e@ == runner::ProbeEventView::Outcome(Ok(None)),
        e matches ProbeEvent::Outcome(Err(x)) ==> e@ == runner::ProbeEventView::Outcome(Err(x@)),
{
}

// ---------------------------------------------------------------------------
// Lists

/// A list shows every element, each in its place.
pub proof fn lemma_lists_show(
    a: Seq<String>,
    b: Seq<TicketKey>,
    c: Seq<Issue>,
    d: Seq<Ticket>,
    e: Seq<ProviderPlan>,
    f: Seq<ListQuery>,
    g: Seq<Segment>,
    h: Seq<StoreKind>,
)
    ensures
        text::texts(a).len() == a.len(),
        forall|i: int| 0 <= i < a.len() ==> #[trigger] text::texts(a)[i] == a[i]@,
        adapters::key_views(b).len() == b.len(),
        forall|i: int| 0 <= i < b.len() ==> #[trigger] adapters::key_views(b)[i] == b[i]@,
        provider::issue_views(c).len() == c.len(),
        forall|i: int| 0 <= i < c.len() ==> #[trigger] provider::issue_views(c)[i] == c[i]@,
        provider::ticket_views(d).len() == d.len(),
        forall|i: int| 0 <= i < d.len() ==> #[trigger] provider::ticket_views(d)[i] == d[i]@,
        scheduler::plan_views(e).len() == e.len(),
        forall|i: int| 0 <= i < e.len() ==> #[trigger] scheduler::plan_views(e)[i] == e[i]@,
        forge::query_views(f).len() == f.len(),
        forall|i: int|
            0 <= i < f.len() ==> (#[trigger] forge::query_views(f)[i]).path == f[i].path@
                && forge::query_views(f)[i].context == f[i].context@
                && forge::query_views(f)[i].wrapper == text::opt_str_text(f[i].wrapper),
        config::segment_views(g).len() == g.len(),
        forall|i: int|
            0 <= i < g.len() ==> match g[i] {
                Segment::Lit(s) => #[trigger] config::segment_views(g)[i]
                    == config::SegmentView::Lit(s@),
                Segment::Var(s) => config::segment_views(g)[i] == config::SegmentView::Var(s@),
            },
        secrets::kind_views(h).len() == h.len(),
        forall|i: int|
            0 <= i < h.len() ==> match h[i] {
                StoreKind::Env => #[trigger] secrets::kind_views(h)[i]
                    == secrets::StoreKindView::Env,
                StoreKind::Keyring => secrets::kind_views(h)[i] == secrets::StoreKindView::Keyring,
                StoreKind::File(p) => secrets::kind_views(h)[i] == secrets::StoreKindView::File(p@),
            },
{
}

/// The tables show every row, each in its place.
pub proof fn lemma_tables_show(
    a: Seq<ItemRecord>,
    b: Seq<WorkItemRow>,
    c: Seq<EventRow>,
    d: Seq<GateRequestRow>,
    s: Snapshot,
)
    ensures
        storage::item_views(a).len() == a.len(),
        forall|i: int| 0 <= i < a.len() ==> #[trigger] storage::item_views(a)[i] == a[i]@,
        storage::work_item_views(b).len() == b.len(),
        forall|i: int| 0 <= i < b.len() ==> #[trigger] storage::work_item_views(b)[i] == b[i]@,
        storage::event_views(c).len() == c.len(),
        forall|i: int| 0 <= i < c.len() ==> #[trigger] storage::event_views(c)[i] == c[i]@,
        storage::gate_views(d).len() == d.len(),
        forall|i: int| 0 <= i < d.len() ==> #[trigger] storage::gate_views(d)[i] == d[i]@,
        s@.items == storage::item_views(s.items@),
        s@.events == storage::event_views(s.events@),
        s@.gates == storage::gate_views(s.gates@),
        s@.last_event == s.last_event,
{
}

/// Pairs of texts show both, each pair in its place.
pub proof fn lemma_pairs_show(
    a: Seq<(String, String)>,
    b: Seq<(&'static str, String)>,
    c: Seq<(String, bool)>,
)
    ensures
        secrets::pair_views(a).len() == a.len(),
        forall|i: int|
            0 <= i < a.len() ==> #[trigger] secrets::pair_views(a)[i] == (a[i].0@, a[i].1@),
        worktree::entry_texts(a).len() == a.len(),
        forall|i: int|
            0 <= i < a.len() ==> #[trigger] worktree::entry_texts(a)[i] == (a[i].0@, a[i].1@),
        rest::header_views(a).len() == a.len(),
        forall|i: int|
            0 <= i < a.len() ==> #[trigger] rest::header_views(a)[i] == (a[i].0@, a[i].1@),
        runner::pair_texts(b).len() == b.len(),
        forall|i: int|
            0 <= i < b.len() ==> #[trigger] runner::pair_texts(b)[i] == (b[i].0@, b[i].1@),
        table::entry_views(c).len() == c.len(),
        forall|i: int|
            0 <= i < c.len() ==> #[trigger] table::entry_views(c)[i] == (c[i].0@, c[i].1),
{
}

// ---------------------------------------------------------------------------
// Outcomes

/// A result agrees with what was promised only where both succeed with the same
/// text or both fail with the same words.
pub proof fn lemma_text_results_agree(
    r: Result<String, String>,
    v: Result<Seq<char>, Seq<char>>,
    p: AdapterResult<String>,
    w: Result<Seq<char>, AdapterErrorView>,
)
    ensures
        scheduler::text_result(r, v) ==> (r is Ok <==> v is Ok),
        scheduler::text_result(r, v) && r is Ok ==> r->Ok_0@ == v->Ok_0,
        scheduler::text_result(r, v) && r is Err ==> r->Err_0@ == v->Err_0,
        runner::path_result(p, w) ==> (p is Ok <==> w is Ok),
        runner::path_result(p, w) && p is Ok ==> p->Ok_0@ == w->Ok_0,
        runner::path_result(p, w) && p is Err ==> p->Err_0@ == w->Err_0,
{
}

/// An intake agrees with what was promised only with the same item, plan, ticket
/// and branch, or with the same words of failure.
pub proof fn lemma_intakes_agree(
    r: Result<scheduler::Intake, String>,
    plan: scheduler::AddPlanView,
    ticket: Result<adapters::TicketView, Seq<char>>,
    v: Result<(int, Seq<char>), Seq<char>>,
    m: Result<bool, String>,
    w: Result<(), Seq<char>>,
)
    ensures
        scheduler::intake_result(r, plan, ticket, v) ==> (r is Ok <==> v is Ok),
        scheduler::intake_result(r, plan, ticket, v) && r is Ok ==> r->Ok_0.item_id == (v->Ok_0).0
            && r->Ok_0.branch@ == (v->Ok_0).1 && r->Ok_0.plan@ == plan && ticket is Ok
            && r->Ok_0.ticket@ == ticket->Ok_0,
        scheduler::intake_result(r, plan, ticket, v) && r is Err ==> r->Err_0@ == v->Err_0,
        scheduler::message_result(m, w) ==> (m is Ok <==> w is Ok),
        scheduler::message_result(m, w) && m is Err ==> m->Err_0@ == w->Err_0,
{
}

/// A storage operation agrees with what was promised only where both succeed,
/// with the same id, or both fail with the same error.
pub proof fn lemma_storage_results_agree(
    r: Result<i64, StorageError>,
    v: Result<(TablesView, int), StorageErrorView>,
    u: Result<(), StorageError>,
    w: Result<TablesView, StorageErrorView>,
    b: Result<bool, StorageError>,
    x: Result<bool, StorageErrorView>,
)
    ensures
        storage::id_result(r, v) ==> (r is Ok <==> v is Ok),
        storage::id_result(r, v) && r is Ok ==> r->Ok_0 == (v->Ok_0).1,
        storage::id_result(r, v) && r is Err ==> r->Err_0@ == v->Err_0,
        storage::unit_result(u, w) ==> (u is Ok <==> w is Ok),
        storage::unit_result(u, w) && u is Err ==> u->Err_0@ == w->Err_0,
        state::bool_result(b, x) ==> (b is Ok <==> x is Ok),
        state::bool_result(b, x) && b is Ok ==> b->Ok_0 == x->Ok_0,
        state::bool_result(b, x) && b is Err ==> b->Err_0@ == x->Err_0,
        v is Ok ==> storage::tables_part(v) == Ok::<TablesView, StorageErrorView>((v->Ok_0).0),
        v is Err ==> storage::tables_part(v) == Err::<TablesView, StorageErrorView>(v->Err_0),
{
}

/// An operation that succeeded left the promised tables, and one that failed
/// left everything as it was.
pub proof fn lemma_operations_are_all_or_nothing(
    before: storage::StorageView,
    after: storage::StorageView,
    outcome: Result<TablesView, StorageErrorView>,
)
    requires
        storage::settled(before, after, outcome),
    ensures
        outcome matches Ok(t) ==> after.tables == t,
        outcome is Err ==> after.tables == before.tables,
{
}

/// A gate request is shown to clients with its own action and payload, and with
/// the ticket and the repository of its item.
pub proof fn lemma_gate_info_shows(info: GateInfo, gate: GateView, row: WorkItemView)
    requires
        scheduler::is_gate_info(info, gate, row),
    ensures
        info.id == gate.id,
        info.work_item_id == gate.work_item_id,
        info.action@ == gate.action_kind,
        info.payload@ == gate.payload,
        info.created_at@ == gate.created_at,
        info.ticket@ == row.ticket_key,
        info.repo@ == row.repo,
{
}

/// Normalising a configuration touches the paths of its repositories alone.
pub proof fn lemma_normalising_touches_paths_alone(
    before: Config,
    after: Config,
    home: Option<Seq<char>>,
    i: int,
)
    requires
        config::is_normalized(before, after, home),
        0 <= i < before.repos@.len(),
    ensures
        after.profile == before.profile,
        after.providers == before.providers,
        after.agents == before.agents,
        after.budgets == before.budgets,
        after.repos@.len() == before.repos@.len(),
        after.repos@[i].0 == before.repos@[i].0,
        config::is_expanded(before.repos@[i].1, after.repos@[i].1, home),
{
    assert(table::keys_of(after.repos@)[i] == table::keys_of(before.repos@)[i]);
}

} // verus!
