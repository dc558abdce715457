//! Work-item scheduler: drives a ticket from intake to a gate in front of
//! its pull request, and executes gate verdicts.
//!
//! The scheduler decides; whoever runs it performs the outside work (HTTP
//! requests, git, processes) and hands back what came of it. Each step takes
//! the storage and the current time, records what happened, and says what to
//! do next.
//!
//! Gates: local checks run automatically and a failure escalates; the branch
//! push is automatic and leaves an audit event; a pull request is created only
//! after a human approved a request that carries its full draft. The
//! item stays `developing` until then.

use crate::adapters;
use crate::adapters::{
    AdapterError, AgentSessionId, AgentStatus, AgentStatusView, AgentTask, AgentTaskView, PrDraft,
    PrDraftView, PrRef, PrRefView, Ticket, TicketKey, TicketKeyView, TicketView,
};
use crate::config;
use crate::config::{render_template, slugify, Agent, Config, Provider, Repo};
use crate::gate;
use crate::gate::{GateEngine, GateLevel, GatePolicy, GatedAction};
use crate::ipc::{AddResult, ApproveResult, GateInfo, GateList, LogsResult, RejectResult};
use crate::json;
use crate::json::{Fields, Json, JsonView};
use crate::paths;
use crate::paths::join_path;
use crate::runner_omp::{BackendSpec, BackendSpecView};
use crate::state;
use crate::state::{assignee_violation, WorkflowState};
use crate::storage;
use crate::storage::{
    GateView, ItemField, Storage, StorageError, StorageErrorView, TablesView, WorkItemRow,
    WorkItemView,
};
use crate::table;
use crate::table::{copy_keys, Table};
use crate::text;
use crate::text::{
    chars_of, contains_text, copy_strings, debug_quoted, i64_string, join, lines, replace_chars,
    split_once, string_between, strip_prefix, text_eq, to_uppercase, trim, u64_string,
};
use crate::worktree;
use crate::worktree::{WorktreeError, WorktreeSpec, WorktreeSpecView};
use vstd::prelude::*;
use vstd::string::*;

verus! {

/// Seconds between two polls of the developing items.
pub const POLL_INTERVAL_SECS: u64 = 2;

/// Transcript lines returned when a client names no number.
pub const DEFAULT_LOG_TAIL: usize = 50;

/// Most characters of error output kept in escalation events.
pub const STDERR_TAIL_CHARS: usize = 2000;

// ---------------------------------------------------------------------------
// References

/// `<provider>:<key>` names a configured provider; a lone key is accepted when
/// exactly one provider is configured.
pub open spec fn ticket_ref(c: Config, ticket: Seq<char>) -> Result<
    (Seq<char>, Seq<char>),
    Seq<char>,
> {
    let cut = text::cut_at(ticket, ':');
    if cut is Some && table::lookup(c.providers@, (cut->0).0) is Some {
        Ok(cut->0)
    } else if c.providers@.len() == 1 {
        Ok((c.providers@[0].0, ticket))
    } else {
        Err(
            "ticket ref "@ + text::debug_text(ticket)
                + ": expected <provider>:<key> naming a configured provider (configured: "@
                + text::joined(table::keys_of(c.providers@), ", "@) + ")"@,
        )
    }
}

/// How a result agrees with its specification when a failure is a message.
pub open spec fn text_result(r: Result<String, String>, v: Result<Seq<char>, Seq<char>>) -> bool {
    match (r, v) {
        (Ok(a), Ok(b)) => a@ == b,
        (Err(a), Err(b)) => a@ == b,
        _ => false,
    }
}

pub fn resolve_ticket_ref(config: &Config, ticket: &str) -> (r: Result<(String, String), String>)
    ensures
        match (r, ticket_ref(*config, ticket@)) {
            (Ok(a), Ok(b)) => a.0@ == b.0 && a.1@ == b.1,
            (Err(a), Err(b)) => a@ == b,
            _ => false,
        },
{
    if let Some((prefix, rest)) = split_once(ticket, ':') {
        if config.providers.contains_key(prefix.as_str()) {
            return Ok((prefix, rest));
        }
    }
    if config.providers.len() == 1 {
        Ok((config.providers.key(0).clone(), ticket.to_owned()))
    } else {
        let names = copy_keys(&config.providers);
        Err(
            "ticket ref ".to_owned().concat(debug_quoted(ticket).as_str()).concat(
                ": expected <provider>:<key> naming a configured provider (configured: ",
            ).concat(join(&names, ", ").as_str()).concat(")"),
        )
    }
}

/// The repository to work in: the one named, else the only one configured.
pub open spec fn repo_choice(c: Config, explicit: Option<Seq<char>>) -> Result<
    Seq<char>,
    Seq<char>,
> {
    match explicit {
        Some(name) => if table::lookup(c.repos@, name) is Some {
            Ok(name)
        } else {
            Err("repo '"@ + name + "' is not configured"@)
        },
        None => if c.repos@.len() == 1 {
            Ok(c.repos@[0].0)
        } else if c.repos@.len() == 0 {
            Err("no repos configured; add a [repos.*] section"@)
        } else {
            Err(
                "several repos configured; pass --repo (one of: "@ + text::joined(
                    table::keys_of(c.repos@),
                    ", "@,
                ) + ")"@,
            )
        },
    }
}

pub fn resolve_repo_name(config: &Config, explicit: Option<&str>) -> (r: Result<String, String>)
    ensures
        text_result(r, repo_choice(*config, text::opt_str_text(explicit))),
        r matches Ok(name) ==> table::lookup(config.repos@, name@) is Some,
{
    if let Some(name) = explicit {
        if config.repos.contains_key(name) {
            return Ok(name.to_owned());
        }
        return Err("repo '".to_owned().concat(name).concat("' is not configured"));
    }
    let n: usize = config.repos.len();
    if n == 1 {
        proof {
            table::lemma_entry_is_found(config.repos@, 0);
        }
        Ok(config.repos.key(0).clone())
    } else if n == 0 {
        Err("no repos configured; add a [repos.*] section".to_owned())
    } else {
        let names = copy_keys(&config.repos);
        Err(
            "several repos configured; pass --repo (one of: ".to_owned().concat(
                join(&names, ", ").as_str(),
            ).concat(")"),
        )
    }
}

// ---------------------------------------------------------------------------
// Branches, drafts and instructions

pub open spec fn or_text(s: Option<Seq<char>>, default: Seq<char>) -> Seq<char> {
    match s {
        Some(t) => t,
        None => default,
    }
}

/// The value of a placeholder in a branch template.
pub open spec fn branch_value(
    name: Seq<char>,
    ty: Seq<char>,
    ticket: Seq<char>,
    slug: Seq<char>,
) -> Option<Seq<char>> {
    if name == "type"@ {
        Some(ty)
    } else if name == "ticket"@ {
        Some(ticket)
    } else if name == "slug"@ {
        Some(slug)
    } else {
        None
    }
}

/// The text of a branch template's pieces, or the first placeholder without a
/// value.
pub open spec fn branch_filled(
    segs: Seq<config::SegmentView>,
    ty: Seq<char>,
    ticket: Seq<char>,
    slug: Seq<char>,
) -> Result<Seq<char>, Seq<char>>
    decreases segs.len(),
{
    if segs.len() == 0 {
        Ok(Seq::empty())
    } else {
        match branch_filled(segs.drop_last(), ty, ticket, slug) {
            Err(var) => Err(var),
            Ok(done) => match segs.last() {
                config::SegmentView::Lit(lit) => Ok(done + lit),
                config::SegmentView::Var(var) => match branch_value(var, ty, ticket, slug) {
                    Some(value) => Ok(done + value),
                    None => Err(var),
                },
            },
        }
    }
}

/// The branch of a work item: the repository's template with `{type}`
/// (`feature` when none is given), `{ticket}` with `/` and `#` folded to `-`,
/// and `{slug}` of the title.
pub open spec fn branch_of(
    template: Seq<char>,
    ty: Option<Seq<char>>,
    key: Seq<char>,
    title: Seq<char>,
) -> Result<Seq<char>, Seq<char>> {
    match config::segments_of(template) {
        None => Err("invalid config: "@ + config::unclosed_message(template)),
        Some(segs) => match branch_filled(
            segs,
            or_text(ty, "feature"@),
            text::mapped_chars(key, '/', '#', '-'),
            config::slug_of(title),
        ) {
            Ok(s) => Ok(s),
            Err(var) => Err(
                "invalid config: "@ + config::unknown_placeholder_message(var, template),
            ),
        },
    }
}

proof fn lemma_branch_filled(
    segs: Seq<config::SegmentView>,
    vars: Seq<(Seq<char>, String)>,
    ty: Seq<char>,
    ticket: Seq<char>,
    slug: Seq<char>,
)
    requires
        forall|name: Seq<char>|
            match (#[trigger] table::lookup(vars, name), branch_value(name, ty, ticket, slug)) {
                (Some(v), Some(w)) => v@ == w,
                (None, None) => true,
                _ => false,
            },
    ensures
        config::filled(segs, vars) == branch_filled(segs, ty, ticket, slug),
    decreases segs.len(),
{
    if segs.len() > 0 {
        lemma_branch_filled(segs.drop_last(), vars, ty, ticket, slug);
    }
}

/// Renders the repository's branch template for a ticket.
pub fn branch_for(repo: &Repo, ty: Option<&str>, ticket_key: &str, title: &str) -> (r: Result<
    String,
    String,
>)
    ensures
        text_result(
            r,
            branch_of(repo.branch_template@, text::opt_str_text(ty), ticket_key@, title@),
        ),
{
    let sanitized = replace_chars(ticket_key, '/', '#', '-');
    let slug = slugify(title);
    let kind = match ty {
        Some(t) => t.to_owned(),
        None => "feature".to_owned(),
    };
    let ghost (k, t, s) = (kind@, sanitized@, slug@);
    let empty: Table<String> = Table::new();
    let ghost e0 = empty@;
    let with_type = empty.insert("type".to_owned(), kind);
    let ghost e1 = with_type@;
    let with_ticket = with_type.insert("ticket".to_owned(), sanitized);
    let ghost e2 = with_ticket@;
    let vars = with_ticket.insert("slug".to_owned(), slug);
    proof {
        reveal_strlit("type");
        reveal_strlit("ticket");
        reveal_strlit("slug");
        assert("type"@.len() == 4 && "ticket"@.len() == 6);
        assert("slug"@.len() == 4 && "slug"@[0] == 's' && "type"@[0] == 't');
        assert forall|name: Seq<char>|
            match (#[trigger] table::lookup(vars@, name), branch_value(name, k, t, s)) {
                (Some(v), Some(w)) => v@ == w,
                (None, None) => true,
                _ => false,
            } by {
            assert(table::keys_ascend(e0));
            table::lemma_inserted_ascends(e0, "type"@, kind);
            table::lemma_inserted_is_found(e0, "type"@, kind, name);
            table::lemma_inserted_ascends(e1, "ticket"@, sanitized);
            table::lemma_inserted_is_found(e1, "ticket"@, sanitized, name);
            table::lemma_inserted_is_found(e2, "slug"@, slug, name);
        }
        if config::segments_of(repo.branch_template@) is Some {
            lemma_branch_filled(
                config::segments_of(repo.branch_template@)->0,
                vars@,
                k,
                t,
                s,
            );
        }
    }
    match render_template(repo.branch_template.as_str(), &vars) {
        Ok(branch) => Ok(branch),
        Err(e) => Err(e.message()),
    }
}

/// The body of a pull request: `Closes #N` where the ticket lives in the
/// repository the request lands in, then the agent's summary.
pub open spec fn draft_body(remote: Seq<char>, key: Seq<char>, summary: Seq<char>) -> Seq<char> {
    let closes = match text::after_prefix(key, remote.push('#')) {
        Some(number) => "Closes #"@ + number + ".\n\n"@,
        None => Seq::empty(),
    };
    let said = if summary.len() == 0 {
        "(no agent summary)"@
    } else {
        summary
    };
    closes + said
}

/// The full draft that a pull request waits with at its gate.
pub open spec fn draft_for(
    remote_repo: Option<Seq<char>>,
    base: Seq<char>,
    ticket: TicketView,
    branch: Seq<char>,
    summary: Seq<char>,
) -> Result<PrDraftView, Seq<char>> {
    match remote_repo {
        None => Err("repo has no remote_repo configured; set `remote_repo = \"owner/name\"`"@),
        Some(remote) => Ok(
            PrDraftView {
                repo: remote,
                title: ticket.key.key + ": "@ + ticket.title,
                body: draft_body(remote, ticket.key.key, summary),
                base,
                head: branch,
                draft: true,
            },
        ),
    }
}

pub fn pr_draft_for(repo: &Repo, ticket: &Ticket, branch: &str, summary: &str) -> (r: Result<
    PrDraft,
    String,
>)
    ensures
        match (
            r,
            draft_for(text::opt_text(repo.remote_repo), repo.base@, ticket@, branch@, summary@),
        ) {
            (Ok(d), Ok(v)) => d@ == v,
            (Err(e), Err(v)) => e@ == v,
            _ => false,
        },
{
    let remote_repo = match &repo.remote_repo {
        Some(remote) => remote.clone(),
        None => return Err(
            "repo has no remote_repo configured; set `remote_repo = \"owner/name\"`".to_owned(),
        ),
    };
    let mut own = remote_repo.clone();
    own.push('#');
    let mut body = match strip_prefix(ticket.key.key.as_str(), own.as_str()) {
        Some(number) => "Closes #".to_owned().concat(number.as_str()).concat(".\n\n"),
        None => String::new(),
    };
    if chars_of(summary).len() == 0 {
        body.append("(no agent summary)");
    } else {
        body.append(summary);
    }
    Ok(
        PrDraft {
            repo: remote_repo,
            title: ticket.key.key.clone().concat(": ").concat(ticket.title.as_str()),
            body,
            base: repo.base.clone(),
            head: branch.to_owned(),
            draft: true,
        },
    )
}

/// The instructions handed to an agent backend.
pub open spec fn instructions_for(
    ticket: TicketView,
    repo_name: Seq<char>,
    base: Seq<char>,
    check_command: Seq<Seq<char>>,
    branch: Seq<char>,
) -> Seq<char> {
    let head = "# "@ + ticket.key.key + ": "@ + ticket.title + "\n\n"@ + text::trimmed(ticket.body)
        + "\n\n## Context\n\n- Ticket: "@ + ticket.url + "\n- Repository: "@ + repo_name
        + " (base branch `"@ + base
        + "`)\n- You are working in a dedicated git worktree on branch `"@ + branch + "`.\n"@;
    let checks = if check_command.len() == 0 {
        head
    } else {
        head + "- Local checks run after you finish: `"@ + text::joined(check_command, " "@)
            + "`. Make them pass.\n"@
    };
    checks
        + "\n## Rules\n\n- Commit your work locally with clear messages.\n- Commit locally; NEVER push, open pull requests, or perform any other remote action — the orchestrator handles everything remote.\n"@
}

pub fn compose_instructions(ticket: &Ticket, repo_name: &str, repo: &Repo, branch: &str) -> (r:
    String)
    ensures
        r@ == instructions_for(
            ticket@,
            repo_name@,
            repo.base@,
            text::texts(repo.check_command@),
            branch@,
        ),
{
    let mut out = "# ".to_owned().concat(ticket.key.key.as_str()).concat(": ").concat(
        ticket.title.as_str(),
    ).concat("\n\n").concat(trim(ticket.body.as_str()).as_str()).concat(
        "\n\n## Context\n\n- Ticket: ",
    ).concat(ticket.url.as_str()).concat("\n- Repository: ").concat(repo_name).concat(
        " (base branch `",
    ).concat(repo.base.as_str()).concat(
        "`)\n- You are working in a dedicated git worktree on branch `",
    ).concat(branch).concat("`.\n");
    if repo.check_command.len() > 0 {
        out.append("- Local checks run after you finish: `");
        out.append(join(&repo.check_command, " ").as_str());
        out.append("`. Make them pass.\n");
    }
    out.append(
        "\n## Rules\n\n- Commit your work locally with clear messages.\n- Commit locally; NEVER push, open pull requests, or perform any other remote action — the orchestrator handles everything remote.\n",
    );
    out
}

/// The message for a work item that could not be created: a ticket that is
/// tracked already gets words of its own.
pub open spec fn create_message(
    e: StorageErrorView,
    ticket: Seq<char>,
    repo: Seq<char>,
) -> Seq<char> {
    if e matches StorageErrorView::Sqlite(cause) && text::has_text(cause, "UNIQUE constraint"@) {
        "ticket "@ + ticket + " is already tracked for repo '"@ + repo + "'"@
    } else {
        storage::storage_message(e)
    }
}

pub fn friendly_create_error(err: &StorageError, ticket: &str, repo: &str) -> (r: String)
    ensures
        r@ == create_message(err@, ticket@, repo@),
{
    let duplicate = match err {
        StorageError::Sqlite(cause) => contains_text(cause.as_str(), "UNIQUE constraint"),
        _ => false,
    };
    if duplicate {
        "ticket ".to_owned().concat(ticket).concat(" is already tracked for repo '").concat(
            repo,
        ).concat("'")
    } else {
        err.message()
    }
}

/// A second intake of the same ticket is told that it is tracked already.
pub proof fn lemma_duplicate_is_named(ticket: Seq<char>, repo: Seq<char>)
    ensures
        create_message(storage::unique_error(), ticket, repo) == "ticket "@ + ticket
            + " is already tracked for repo '"@ + repo + "'"@,
{
    let cause =
        "UNIQUE constraint failed: work_items.provider, work_items.ticket_key, work_items.repo"@;
    reveal_strlit("UNIQUE constraint");
    reveal_strlit(
        "UNIQUE constraint failed: work_items.provider, work_items.ticket_key, work_items.repo",
    );
    assert(cause.subrange(0, "UNIQUE constraint"@.len() as int) == "UNIQUE constraint"@);
    assert(text::occurs_at(cause, "UNIQUE constraint"@, 0));
}

// ---------------------------------------------------------------------------
// Tails

/// The last `n` elements of a sequence.
pub open spec fn last_of<A>(s: Seq<A>, n: nat) -> Seq<A> {
    if s.len() <= n {
        s
    } else {
        s.skip(s.len() - n)
    }
}

/// Last `n` lines, oldest first.
pub fn tail_lines(text: &str, n: usize) -> (r: Vec<String>)
    ensures
        text::texts(r@) == last_of(text::line_texts(text@), n as nat),
{
    let all = lines(text);
    let total: usize = all.len();
    let start: usize = if total > n {
        total - n
    } else {
        0
    };
    let mut out: Vec<String> = Vec::new();
    let mut i: usize = start;
    while i < total
        invariant
            start <= i <= total,
            total == all@.len(),
            out@.len() == i - start,
            forall|k: int| 0 <= k < out@.len() ==> (#[trigger] out@[k])@ == all@[start + k]@,
        decreases total - i,
    {
        out.push(all[i].clone());
        i = i + 1;
    }
    assert(text::texts(all@).len() == total);
    assert(text::texts(out@) == last_of(text::texts(all@), n as nat));
    out
}

/// Last `max_chars` characters.
pub fn tail_chars(text: &str, max_chars: usize) -> (r: String)
    ensures
        r@ == last_of(text@, max_chars as nat),
{
    let chars = chars_of(text);
    let total: usize = chars.len();
    let start: usize = if total > max_chars {
        total - max_chars
    } else {
        0
    };
    let out = string_between(&chars, start, total);
    assert(out@ == last_of(text@, max_chars as nat));
    out
}

// ---------------------------------------------------------------------------
// Wiring

/// A provider that can be driven, as far as the configuration says: what to
/// look up its token under and what to build its adapters with.
#[derive(Debug, PartialEq)]
pub struct ProviderPlan {
    pub name: String,
    pub user: String,
    pub secret_key: String,
    pub api_url: String,
    /// Remote repositories wired to the provider.
    pub remote_repos: Vec<String>,
}

#[verifier::ext_equal]
pub struct ProviderPlanView {
    pub name: Seq<char>,
    pub user: Seq<char>,
    pub secret_key: Seq<char>,
    pub api_url: Seq<char>,
    pub remote_repos: Seq<Seq<char>>,
}

impl View for ProviderPlan {
    type V = ProviderPlanView;

    open spec fn view(&self) -> ProviderPlanView {
        ProviderPlanView {
            name: self.name@,
            user: self.user@,
            secret_key: self.secret_key@,
            api_url: self.api_url@,
            remote_repos: text::texts(self.remote_repos@),
        }
    }
}

pub open spec fn plan_views(v: Seq<ProviderPlan>) -> Seq<ProviderPlanView> {
    Seq::new(v.len(), |i: int| v[i]@)
}

/// A provider is driven when it is of kind `github` and names a user.
pub open spec fn is_drivable(p: Provider) -> bool {
    p.kind@ == "github"@ && p.user is Some
}

/// The remote repositories wired to a provider, by ascending repository name.
pub open spec fn remotes_of(repos: Seq<(Seq<char>, Repo)>, provider: Seq<char>) -> Seq<Seq<char>>
    decreases repos.len(),
{
    if repos.len() == 0 {
        Seq::empty()
    } else {
        let rest = remotes_of(repos.drop_last(), provider);
        let repo = repos.last().1;
        if text::opt_text(repo.provider) == Some(provider) && repo.remote_repo is Some {
            rest.push(repo.remote_repo->0@)
        } else {
            rest
        }
    }
}

/// The plans of the drivable providers, by ascending name.
pub open spec fn plans_of(
    providers: Seq<(Seq<char>, Provider)>,
    repos: Seq<(Seq<char>, Repo)>,
) -> Seq<ProviderPlanView>
    decreases providers.len(),
{
    if providers.len() == 0 {
        Seq::empty()
    } else {
        let rest = plans_of(providers.drop_last(), repos);
        let (name, p) = providers.last();
        if is_drivable(p) {
            rest.push(
                ProviderPlanView {
                    name,
                    user: p.user->0@,
                    secret_key: "providers."@ + name,
                    api_url: config::url_of(p),
                    remote_repos: remotes_of(repos, name),
                },
            )
        } else {
            rest
        }
    }
}

fn drivable(p: &Provider) -> (r: bool)
    ensures
        r == is_drivable(*p),
{
    text_eq(p.kind.as_str(), "github") && p.user.is_some()
}

fn wired_remotes(repos: &Table<Repo>, provider: &str) -> (r: Vec<String>)
    ensures
        text::texts(r@) == remotes_of(repos@, provider@),
{
    let mut out: Vec<String> = Vec::new();
    let mut i: usize = 0;
    assert(repos@.take(0) == Seq::<(Seq<char>, Repo)>::empty());
    assert(text::texts(out@) == Seq::<Seq<char>>::empty());
    while i < repos.len()
        invariant
            i <= repos@.len(),
            text::texts(out@) == remotes_of(repos@.take(i as int), provider@),
        decreases repos@.len() - i,
    {
        assert(repos@.take(i + 1).drop_last() == repos@.take(i as int));
        assert(repos@.take(i + 1).last() == repos@[i as int]);
        let repo = repos.value(i);
        let ours: bool = match &repo.provider {
            Some(p) => text_eq(p.as_str(), provider),
            None => false,
        };
        let ghost before = text::texts(out@);
        if ours {
            if let Some(remote) = &repo.remote_repo {
                out.push(remote.clone());
                assert(text::texts(out@) == before.push(remote@));
            }
        }
        i = i + 1;
    }
    assert(repos@.take(i as int) == repos@);
    out
}

/// The providers that can be driven, before their tokens are looked up.
pub fn planned_providers(config: &Config) -> (r: Vec<ProviderPlan>)
    ensures
        plan_views(r@) == plans_of(config.providers@, config.repos@),
{
    let ghost all = config.providers@;
    let mut out: Vec<ProviderPlan> = Vec::new();
    let mut i: usize = 0;
    assert(all.take(0) == Seq::<(Seq<char>, Provider)>::empty());
    assert(plan_views(out@) == Seq::<ProviderPlanView>::empty());
    while i < config.providers.len()
        invariant
            i <= all.len(),
            all == config.providers@,
            plan_views(out@) == plans_of(all.take(i as int), config.repos@),
        decreases all.len() - i,
    {
        assert(all.take(i + 1).drop_last() == all.take(i as int));
        assert(all.take(i + 1).last() == all[i as int]);
        let name = config.providers.key(i);
        let provider = config.providers.value(i);
        let ghost before = plan_views(out@);
        if text_eq(provider.kind.as_str(), "github") {
            if let Some(user) = &provider.user {
                let plan = ProviderPlan {
                    name: name.clone(),
                    user: user.clone(),
                    secret_key: "providers.".to_owned().concat(name.as_str()),
                    api_url: provider.api_url(),
                    remote_repos: wired_remotes(&config.repos, name.as_str()),
                };
                let ghost v = plan@;
                out.push(plan);
                assert(plan_views(out@) == before.push(v));
            }
        }
        i = i + 1;
    }
    assert(all.take(i as int) == all);
    out
}

/// A provider in use: the login that the assignee is compared with.
pub struct ProviderEntry {
    pub user: String,
}

/// The login of a provider in use: one that can be driven and whose token was
/// found.
pub open spec fn user_of(
    providers: Seq<(Seq<char>, Provider)>,
    usable: Seq<Seq<char>>,
    name: Seq<char>,
) -> Option<Seq<char>> {
    match table::lookup(providers, name) {
        Some(p) => if is_drivable(p) && usable.contains(name) {
            Some(p.user->0@)
        } else {
            None
        },
        None => None,
    }
}

pub open spec fn entry_user(
    providers: Seq<(Seq<char>, ProviderEntry)>,
    name: Seq<char>,
) -> Option<Seq<char>> {
    match table::lookup(providers, name) {
        Some(e) => Some(e.user@),
        None => None,
    }
}

/// The backend that a runner drives.
pub open spec fn runner_of(runners: Seq<(Seq<char>, BackendSpec)>, name: Seq<char>) -> Option<
    BackendSpecView,
> {
    match table::lookup(runners, name) {
        Some(b) => Some(b@),
        None => None,
    }
}

/// The backend that a name stands for in a configuration.
pub open spec fn backend_of(c: Config, name: Seq<char>) -> Option<BackendSpecView> {
    match config::agent_of(c, name) {
        Some(a) => Some(BackendSpecView { start_cmd: a.start_cmd, resume_cmd: a.resume_cmd }),
        None => None,
    }
}

/// Whether a backend is configured or used by some of the first repositories.
pub open spec fn is_wanted(c: Config, upto: int, name: Seq<char>) -> bool {
    exists|i: int| 0 <= i < upto && config::agent_name_of((#[trigger] c.repos@[i]).1) == name
}

/// How the worktrees of a repository are managed.
pub open spec fn worktree_spec_of(repo: Repo) -> WorktreeSpecView {
    WorktreeSpecView {
        repo_path: repo.path@,
        worktrees_root: config::worktrees_root_of(repo),
        setup_hook: text::texts(repo.setup_hook@),
        teardown_hook: text::texts(repo.teardown_hook@),
    }
}

/// Decides what happens to work items.
pub struct Scheduler {
    pub config: Config,
    pub policy: GatePolicy,
    /// Providers in use, by name.
    pub providers: Table<ProviderEntry>,
    /// Agent backends, by name.
    pub runners: Table<BackendSpec>,
    /// Worktree management, by repository name.
    pub worktrees: Table<WorktreeSpec>,
    /// Directory of agent sessions.
    pub sessions_root: String,
    /// Work items whose current question was recorded.
    pub asked: Vec<i64>,
}

fn contains(v: &Vec<String>, s: &str) -> (r: bool)
    ensures
        r == text::texts(v@).contains(s@),
{
    let mut i: usize = 0;
    while i < v.len()
        invariant
            i <= v@.len(),
            forall|k: int| 0 <= k < i ==> (#[trigger] v@[k])@ != s@,
        decreases v@.len() - i,
    {
        if text_eq(v[i].as_str(), s) {
            assert(text::texts(v@)[i as int] == s@);
            return true;
        }
        i = i + 1;
    }
    assert(!text::texts(v@).contains(s@)) by {
        if text::texts(v@).contains(s@) {
            let k = choose|k: int| 0 <= k < text::texts(v@).len() && text::texts(v@)[k] == s@;
            assert(v@[k]@ == s@);
        }
    }
    false
}

fn used_providers(providers: &Table<Provider>, usable: &Vec<String>) -> (r: Table<ProviderEntry>)
    ensures
        forall|name: Seq<char>|
            #[trigger] entry_user(r@, name) == user_of(
                providers@,
                text::texts(usable@),
                name,
            ),
{
    let ghost all = providers@;
    let mut out: Table<ProviderEntry> = Table::new();
    let mut i: usize = 0;
    assert(all.take(0) == Seq::<(Seq<char>, Provider)>::empty());
    while i < providers.len()
        invariant
            i <= all.len(),
            all == providers@,
            forall|name: Seq<char>|
                #[trigger] entry_user(out@, name) == user_of(
                    all.take(i as int),
                    text::texts(usable@),
                    name,
                ),
        decreases all.len() - i,
    {
        let key = providers.key(i);
        let p = providers.value(i);
        let ghost before = out@;
        let used: bool = drivable(p) && contains(usable, key.as_str());
        proof {
            assert(all.take(i + 1) == all.take(i as int).push(all[i as int]));
            assert forall|name: Seq<char>| #[trigger]
                table::lookup(all.take(i + 1), name) == if name == key@ {
                    Some(*p)
                } else {
                    table::lookup(all.take(i as int), name)
                } by {
                table::lemma_lookup_push(all.take(i as int), all[i as int], name);
                if name == key@ {
                    table::lemma_lookup(all.take(i as int), name);
                    if table::lookup(all.take(i as int), name) is Some {
                        let v = table::lookup(all.take(i as int), name)->0;
                        let k = choose|k: int|
                            0 <= k < all.take(i as int).len() && #[trigger] all.take(i as int)[k]
                                == (name, v);
                        assert(text::text_lt(all[k].0, all[i as int].0));
                        text::lemma_text_order_total(all[k].0, all[i as int].0);
                    }
                }
            }
        }
        if used {
            if let Some(user) = &p.user {
                let entry = ProviderEntry { user: user.clone() };
                let ghost e = entry;
                out = out.insert(key.clone(), entry);
                proof {
                    assert forall|name: Seq<char>| #[trigger]
                        entry_user(out@, name) == user_of(
                            all.take(i + 1),
                            text::texts(usable@),
                            name,
                        ) by {
                        table::lemma_inserted_is_found(before, key@, e, name);
                        assert(entry_user(before, name) == user_of(
                            all.take(i as int),
                            text::texts(usable@),
                            name,
                        ));
                    }
                }
            }
        } else {
            proof {
                assert forall|name: Seq<char>| #[trigger]
                    entry_user(out@, name) == user_of(
                        all.take(i + 1),
                        text::texts(usable@),
                        name,
                    ) by {
                    assert(entry_user(before, name) == user_of(
                        all.take(i as int),
                        text::texts(usable@),
                        name,
                    ));
                    if name == key@ {
                        assert(table::lookup(all.take(i as int), name) is None) by {
                            table::lemma_lookup(all.take(i as int), name);
                            if table::lookup(all.take(i as int), name) is Some {
                                let v = table::lookup(all.take(i as int), name)->0;
                                let k = choose|k: int|
                                    0 <= k < all.take(i as int).len() && #[trigger] all.take(
                                        i as int,
                                    )[k] == (name, v);
                                assert(text::text_lt(all[k].0, all[i as int].0));
                                text::lemma_text_order_total(all[k].0, all[i as int].0);
                            }
                        }
                    }
                }
            }
        }
        i = i + 1;
    }
    assert(all.take(i as int) == all);
    out
}

/// The runners with one more backend, as far as its name resolves.
fn with_runner(config: &Config, runners: Table<BackendSpec>, name: &str) -> (r: Table<BackendSpec>)
    ensures
        forall|n: Seq<char>|
            #[trigger] runner_of(r@, n) == if n == name@ && backend_of(*config, n) is Some {
                backend_of(*config, n)
            } else {
                runner_of(runners@, n)
            },
{
    let ghost before = runners@;
    match config.agent(name) {
        None => runners,
        Some(agent) => {
            let backend = BackendSpec {
                start_cmd: agent.start_cmd,
                resume_cmd: agent.resume_cmd,
            };
            let ghost b = backend;
            let out = runners.insert(name.to_owned(), backend);
            proof {
                assert forall|n: Seq<char>| #[trigger]
                    runner_of(out@, n) == if n == name@ && backend_of(*config, n) is Some {
                        backend_of(*config, n)
                    } else {
                        runner_of(before, n)
                    } by {
                    table::lemma_inserted_is_found(before, name@, b, n);
                }
            }
            out
        },
    }
}

fn all_runners(config: &Config) -> (r: Table<BackendSpec>)
    ensures
        forall|name: Seq<char>|
            #[trigger] runner_of(r@, name) == if is_wanted(
                *config,
                config.repos@.len() as int,
                name,
            ) || table::lookup(config.agents@, name) is Some {
                backend_of(*config, name)
            } else {
                None
            },
{
    let mut out: Table<BackendSpec> = Table::new();
    let mut i: usize = 0;
    while i < config.repos.len()
        invariant
            i <= config.repos@.len(),
            forall|name: Seq<char>|
                #[trigger] runner_of(out@, name) == if is_wanted(*config, i as int, name) {
                    backend_of(*config, name)
                } else {
                    None
                },
        decreases config.repos@.len() - i,
    {
        let repo = config.repos.value(i);
        let ghost before = out@;
        out = with_runner(config, out, repo.agent_name());
        proof {
            assert forall|name: Seq<char>| #[trigger]
                runner_of(out@, name) == if is_wanted(*config, i + 1, name) {
                    backend_of(*config, name)
                } else {
                    None
                } by {
                assert(runner_of(before, name) == if is_wanted(*config, i as int, name) {
                    backend_of(*config, name)
                } else {
                    None
                });
                if is_wanted(*config, i + 1, name) && !is_wanted(*config, i as int, name) {
                    let k = choose|k: int|
                        0 <= k < i + 1 && config::agent_name_of((#[trigger] config.repos@[k]).1)
                            == name;
                    assert(k == i);
                }
                if name == config::agent_name_of(*repo) {
                    assert(config::agent_name_of(config.repos@[i as int].1) == name);
                    assert(is_wanted(*config, i + 1, name));
                }
                if is_wanted(*config, i as int, name) {
                    let k = choose|k: int|
                        0 <= k < i && config::agent_name_of((#[trigger] config.repos@[k]).1)
                            == name;
                    assert(config::agent_name_of(config.repos@[k].1) == name);
                    assert(is_wanted(*config, i + 1, name));
                }
            }
        }
        i = i + 1;
    }
    let ghost n = config.repos@.len() as int;
    let ghost agents = config.agents@;
    let mut j: usize = 0;
    assert(agents.take(0) == Seq::<(Seq<char>, Agent)>::empty());
    while j < config.agents.len()
        invariant
            j <= agents.len(),
            n == config.repos@.len(),
            agents == config.agents@,
            forall|name: Seq<char>|
                #[trigger] runner_of(out@, name) == if is_wanted(*config, n, name) || table::lookup(
                    agents.take(j as int),
                    name,
                ) is Some {
                    backend_of(*config, name)
                } else {
                    None
                },
        decreases agents.len() - j,
    {
        let key = config.agents.key(j);
        let ghost before = out@;
        out = with_runner(config, out, key.as_str());
        proof {
            assert(agents.take(j + 1) == agents.take(j as int).push(agents[j as int]));
            assert forall|name: Seq<char>| #[trigger]
                runner_of(out@, name) == if is_wanted(*config, n, name) || table::lookup(
                    agents.take(j + 1),
                    name,
                ) is Some {
                    backend_of(*config, name)
                } else {
                    None
                } by {
                table::lemma_lookup_push(agents.take(j as int), agents[j as int], name);
                assert(runner_of(before, name) == if is_wanted(*config, n, name) || table::lookup(
                    agents.take(j as int),
                    name,
                ) is Some {
                    backend_of(*config, name)
                } else {
                    None
                });
            }
        }
        j = j + 1;
    }
    assert(agents.take(j as int) == agents);
    out
}

fn all_worktrees(repos: &Table<Repo>) -> (r: Table<WorktreeSpec>)
    ensures
        table::keys_of(r@) == table::keys_of(repos@),
        r@.len() == repos@.len(),
        forall|i: int|
            0 <= i < repos@.len() ==> (#[trigger] r@[i]).1@ == worktree_spec_of(repos@[i].1),
{
    let mut values: Vec<WorktreeSpec> = Vec::new();
    let mut i: usize = 0;
    while i < repos.len()
        invariant
            i <= repos@.len(),
            values@.len() == i,
            forall|k: int|
                0 <= k < i ==> (#[trigger] values@[k])@ == worktree_spec_of(repos@[k].1),
        decreases repos@.len() - i,
    {
        let repo = repos.value(i);
        values.push(
            WorktreeSpec {
                repo_path: repo.path.clone(),
                worktrees_root: repo.worktrees_root(),
                setup_hook: copy_strings(&repo.setup_hook),
                teardown_hook: copy_strings(&repo.teardown_hook),
            },
        );
        i = i + 1;
    }
    let ghost given = values@;
    let out = repos.with_values(values);
    proof {
        assert(table::keys_of(out@) == table::keys_of(repos@));
        assert forall|k: int| 0 <= k < repos@.len() implies (#[trigger] out@[k]).1@
            == worktree_spec_of(repos@[k].1) by {
            assert(out@[k].1 == given[k]);
        }
    }
    out
}

impl Scheduler {
    /// Whether the wiring agrees with the configuration.
    pub open spec fn wired(&self, usable: Seq<Seq<char>>) -> bool {
        &&& forall|name: Seq<char>|
            #[trigger] entry_user(self.providers@, name) == user_of(
                self.config.providers@,
                usable,
                name,
            )
        &&& forall|name: Seq<char>|
            #[trigger] runner_of(self.runners@, name) == if is_wanted(
                self.config,
                self.config.repos@.len() as int,
                name,
            ) || table::lookup(self.config.agents@, name) is Some {
                backend_of(self.config, name)
            } else {
                None
            }
        &&& table::keys_of(self.worktrees@) == table::keys_of(self.config.repos@)
        &&& self.worktrees@.len() == self.config.repos@.len()
        &&& forall|i: int|
            0 <= i < self.config.repos@.len() ==> (#[trigger] self.worktrees@[i]).1@
                == worktree_spec_of(self.config.repos@[i].1)
    }

    /// Wires the configuration. `usable` names the planned providers whose
    /// token was found; a provider that cannot be driven is left out, and the
    /// commands that need it say so.
    pub fn new(config: Config, state_dir: &str, usable: &Vec<String>) -> (r: Scheduler)
        ensures
            r.config == config,
            r.wired(text::texts(usable@)),
            r.policy@ == Seq::<(GatedAction, GateLevel)>::empty(),
            r.sessions_root@ == paths::joined_path(state_dir@, "agents"@),
            r.asked@.len() == 0,
    {
        let providers = used_providers(&config.providers, usable);
        let runners = all_runners(&config);
        let worktrees = all_worktrees(&config.repos);
        let policy = GatePolicy::new(config.profile.lock_public_gate, Vec::new());
        assert(policy@ == Seq::<(GatedAction, GateLevel)>::empty());
        Scheduler {
            config,
            policy,
            providers,
            runners,
            worktrees,
            sessions_root: join_path(state_dir, "agents"),
            asked: Vec::new(),
        }
    }
}

/// Under a valid configuration every repository has its runner.
pub proof fn lemma_every_repo_has_a_runner(s: Scheduler, usable: Seq<Seq<char>>, i: int)
    requires
        s.wired(usable),
        config::config_error(s.config) is None,
        0 <= i < s.config.repos@.len(),
    ensures
        runner_of(s.runners@, config::agent_name_of(s.config.repos@[i].1)) is Some,
{
    config::lemma_valid_repo(s.config, i);
    let name = config::agent_name_of(s.config.repos@[i].1);
    assert(config::agent_name_of(s.config.repos@[i].1) == name);
    assert(is_wanted(s.config, s.config.repos@.len() as int, name));
}

/// Pull requests always wait for a human: no action that is public by default
/// is decided without approval.
pub proof fn lemma_public_actions_need_approval(s: Scheduler, action: GatedAction)
    requires
        s.policy@ == Seq::<(GatedAction, GateLevel)>::empty(),
    ensures
        gate::decision_at(gate::level_under(s.policy@, action)) is RequireApproval <==> !(
        action is PushBranch || action is ForcePushBranch),
{
}

// ---------------------------------------------------------------------------
// Recording

/// What came of work done outside: it succeeded, it failed, or it was lost
/// before it could do either.
pub enum Outcome<T, E> {
    Done(T),
    Failed(E),
    Lost(String),
}

/// `{"error": msg}`.
pub open spec fn error_json(msg: Seq<char>) -> JsonView {
    JsonView::Object(seq![("error"@, JsonView::Str(msg))])
}

fn error_object(msg: &str) -> (r: Json)
    ensures
        r@ == error_json(msg@),
{
    let fields = Fields::new().with("error", Json::text(msg));
    assert(fields@ == seq![("error"@, JsonView::Str(msg@))]);
    fields.done()
}

/// Recording an event and parking the item, each as far as it goes.
pub open spec fn escalated(
    t: TablesView,
    id: int,
    kind: Seq<char>,
    payload: JsonView,
    now: Seq<char>,
) -> TablesView {
    let logged = match storage::appended(t, Some(id), "system"@, kind, payload, now) {
        Ok((u, event)) => u,
        Err(_) => t,
    };
    match storage::state_updated(logged, id, state::state_text(WorkflowState::Escalated), now) {
        Ok(u) => u,
        Err(_) => logged,
    }
}

/// Appends an audit event and parks the item in `escalated`. Escalation is the
/// error path already, so its own failures are not reported.
pub fn escalate(storage: &mut Storage, item_id: i64, kind: &str, payload: &Json, now: &str)
    requires
        old(storage).wf(),
    ensures
        final(storage).wf(),
        final(storage)@.tables == escalated(
            old(storage)@.tables,
            item_id as int,
            kind@,
            payload@,
            now@,
        ),
        storage::follows(old(storage)@, final(storage)@),
{
    let ghost before = storage@;
    proof {
        storage::lemma_follows_same(before);
    }
    let _ = storage.append_event_at(Some(item_id), "system", kind, payload, now);
    let ghost logged = storage@;
    proof {
        storage::lemma_follows_same(logged);
    }
    let _ = storage.update_work_item_state_at(item_id, WorkflowState::Escalated.as_str(), now);
    proof {
        storage::lemma_follows_chain(before, logged, storage@);
    }
}

/// An escalated item is parked: while event ids last, it is `escalated` and the
/// log says why.
pub proof fn lemma_escalation_parks(
    t: TablesView,
    id: int,
    kind: Seq<char>,
    payload: JsonView,
    now: Seq<char>,
)
    requires
        storage::tables_ok(t),
        storage::has_item(t, id),
        storage::next_event_id(t) + 1 <= i64::MAX,
    ensures
        ({
            let u = escalated(t, id, kind, payload, now);
            &&& storage::item_of(u, id) matches Some(item) && item.row.state == state::state_text(
                WorkflowState::Escalated,
            )
            &&& u.events.len() == t.events.len() + 2
            &&& u.events[t.events.len() as int].kind == kind
            &&& u.events[t.events.len() as int].payload == payload
            &&& u.events[t.events.len() as int].work_item_id == Some(id)
        }),
{
    storage::lemma_appended_ok(t, Some(id), "system"@, kind, payload, now);
    let logged = storage::appended(t, Some(id), "system"@, kind, payload, now)->Ok_0.0;
    let item = storage::item_of(t, id);
    assert(storage::item_of(logged, id) == item);
    let u = escalated(t, id, kind, payload, now);
    storage::lemma_state_update_succeeds(
        logged,
        id,
        state::state_text(WorkflowState::Escalated),
        now,
    );
    storage::lemma_state_change_is_local(
        logged,
        u,
        id,
        state::state_text(WorkflowState::Escalated),
        now,
        id,
    );
    storage::lemma_state_change_appends(
        logged,
        u,
        id,
        state::state_text(WorkflowState::Escalated),
        now,
    );
    assert(u.events[t.events.len() as int] == logged.events[t.events.len() as int]);
}

// ---------------------------------------------------------------------------
// Adding a ticket

/// A ticket to fetch and the repository it is worked on in.
#[derive(Debug, PartialEq, Eq)]
pub struct AddPlan {
    pub provider: String,
    pub key: String,
    pub repo: String,
}

#[verifier::ext_equal]
pub struct AddPlanView {
    pub provider: Seq<char>,
    pub key: Seq<char>,
    pub repo: Seq<char>,
}

impl View for AddPlan {
    type V = AddPlanView;

    open spec fn view(&self) -> AddPlanView {
        AddPlanView { provider: self.provider@, key: self.key@, repo: self.repo@ }
    }
}

pub open spec fn unusable_message(provider: Seq<char>) -> Seq<char> {
    "provider '"@ + provider
        + "' is not usable: it needs kind = \"github\", a `user`, and a token under secret key providers."@
        + provider + " (env YARDMASTER_SECRET_PROVIDERS_"@ + text::mapped_chars(
        text::uppercased(provider),
        '.',
        '-',
        '_',
    ) + ")"@
}

/// Resolving a ticket reference and a repository: both must name what is
/// configured, belong together, and have a provider in use.
pub open spec fn add_plan(s: Scheduler, ticket: Seq<char>, repo: Option<Seq<char>>) -> Result<
    AddPlanView,
    Seq<char>,
> {
    match ticket_ref(s.config, ticket) {
        Err(m) => Err(m),
        Ok((provider, key)) => match repo_choice(s.config, repo) {
            Err(m) => Err(m),
            Ok(name) => match (table::lookup(s.config.repos@, name)->0).provider {
                None => Err(
                    "repo '"@ + name + "' has no provider configured; set `provider` in [repos."@
                        + name + "]"@,
                ),
                Some(expected) => if expected@ != provider {
                    Err(
                        "ticket provider '"@ + provider + "' does not match repo '"@ + name
                            + "' (configured provider '"@ + expected@ + "')"@,
                    )
                } else if table::lookup(s.providers@, provider) is None {
                    Err(unusable_message(provider))
                } else {
                    Ok(AddPlanView { provider, key, repo: name })
                },
            },
        },
    }
}

/// A tracked ticket on its way to an agent.
pub struct Intake {
    pub item_id: i64,
    pub plan: AddPlan,
    pub ticket: Ticket,
    pub branch: String,
}

/// Payload of a `ticket_added` event.
pub open spec fn added_payload(provider: Seq<char>, ticket: TicketView) -> JsonView {
    JsonView::Object(
        seq![
            ("provider"@, JsonView::Str(provider)),
            ("ticket"@, JsonView::Str(ticket.key.key)),
            ("title"@, JsonView::Str(ticket.title)),
            ("url"@, JsonView::Str(ticket.url)),
        ],
    )
}

/// Tracking a ticket: the work item with its audit event, queued, with its
/// branch. A failure leaves what was recorded before it.
pub open spec fn intake(
    t: TablesView,
    plan: AddPlanView,
    template: Seq<char>,
    ty: Option<Seq<char>>,
    ticket: TicketView,
    now: Seq<char>,
) -> (TablesView, Result<(int, Seq<char>), Seq<char>>) {
    match storage::item_created(
        t,
        plan.provider,
        ticket.key.key,
        plan.repo,
        state::state_text(WorkflowState::Known),
        now,
    ) {
        Err(e) => (t, Err(create_message(e, ticket.key.key, plan.repo))),
        Ok((created, id)) => match storage::appended(
            created,
            Some(id),
            "system"@,
            "ticket_added"@,
            added_payload(plan.provider, ticket),
            now,
        ) {
            Err(e) => (created, Err(storage::storage_message(e))),
            Ok((logged, event)) => match storage::state_updated(
                logged,
                id,
                state::state_text(WorkflowState::Queued),
                now,
            ) {
                Err(e) => (logged, Err(storage::storage_message(e))),
                Ok(queued) => match branch_of(template, ty, ticket.key.key, ticket.title) {
                    Err(m) => (queued, Err(m)),
                    Ok(branch) => match storage::field_set(
                        queued,
                        id,
                        ItemField::Branch,
                        branch,
                        now,
                    ) {
                        Err(e) => (queued, Err(storage::storage_message(e))),
                        Ok(u) => (u, Ok((id, branch))),
                    },
                },
            },
        },
    }
}

/// A fetched ticket, or the message for one that could not be fetched.
pub open spec fn fetched(key: Seq<char>, o: Outcome<Ticket, AdapterError>) -> Result<
    TicketView,
    Seq<char>,
> {
    match o {
        Outcome::Done(ticket) => Ok(ticket@),
        Outcome::Failed(e) => Err(
            "fetching ticket "@ + key + ": "@ + adapters::adapter_message(e@),
        ),
        Outcome::Lost(m) => Err(m@),
    }
}

/// Taking in a fetched ticket. Someone else's ticket is refused before
/// anything is recorded.
pub open spec fn taken_in(
    t: TablesView,
    plan: AddPlanView,
    user: Seq<char>,
    template: Seq<char>,
    ty: Option<Seq<char>>,
    ticket: Result<TicketView, Seq<char>>,
    now: Seq<char>,
) -> (TablesView, Result<(int, Seq<char>), Seq<char>>) {
    match ticket {
        Err(m) => (t, Err(m)),
        Ok(ticket) => match state::violation(ticket, user) {
            Some(reason) => (
                t,
                Err(
                    "refusing to add: "@ + reason
                        + " — yardmaster never touches someone else's ticket"@,
                ),
            ),
            None => intake(t, plan, template, ty, ticket, now),
        },
    }
}

/// Someone else's ticket, or an unassigned one, leaves no trace.
pub proof fn lemma_foreign_ticket_leaves_no_trace(
    t: TablesView,
    plan: AddPlanView,
    user: Seq<char>,
    template: Seq<char>,
    ty: Option<Seq<char>>,
    ticket: TicketView,
    now: Seq<char>,
)
    requires
        ticket.assignee != Some(user),
    ensures
        taken_in(t, plan, user, template, ty, Ok(ticket), now).0 == t,
        taken_in(t, plan, user, template, ty, Ok(ticket), now).1 is Err,
{
}

/// How the result of an intake agrees with its outcome.
pub open spec fn intake_result(
    r: Result<Intake, String>,
    plan: AddPlanView,
    ticket: Result<TicketView, Seq<char>>,
    v: Result<(int, Seq<char>), Seq<char>>,
) -> bool {
    match (r, v) {
        (Ok(i), Ok((id, branch))) => i.item_id == id && i.plan@ == plan && ticket == Ok::<
            TicketView,
            Seq<char>,
        >(i.ticket@) && i.branch@ == branch,
        (Err(a), Err(b)) => a@ == b,
        _ => false,
    }
}

fn record_intake(
    storage: &mut Storage,
    plan: AddPlan,
    repo: &Repo,
    ty: Option<&str>,
    ticket: Ticket,
    now: &str,
) -> (r: Result<Intake, String>)
    requires
        old(storage).wf(),
    ensures
        final(storage).wf(),
        ({
            let (t, v) = intake(
                old(storage)@.tables,
                plan@,
                repo.branch_template@,
                text::opt_str_text(ty),
                ticket@,
                now@,
            );
            final(storage)@.tables == t && intake_result(r, plan@, Ok(ticket@), v)
        }),
        storage::follows(old(storage)@, final(storage)@),
{
    let ghost s0 = storage@;
    proof {
        storage::lemma_follows_same(s0);
    }
    let item_id = match storage.create_work_item_at(
        plan.provider.as_str(),
        ticket.key.key.as_str(),
        plan.repo.as_str(),
        WorkflowState::Known.as_str(),
        now,
    ) {
        Ok(id) => id,
        Err(e) => return Err(
            friendly_create_error(&e, ticket.key.key.as_str(), plan.repo.as_str()),
        ),
    };
    let ghost s1 = storage@;
    let fields = Fields::new().with("provider", Json::text(plan.provider.as_str())).with(
        "ticket",
        Json::text(ticket.key.key.as_str()),
    ).with("title", Json::text(ticket.title.as_str())).with(
        "url",
        Json::text(ticket.url.as_str()),
    );
    assert(fields@ == seq![
        ("provider"@, JsonView::Str(plan.provider@)),
        ("ticket"@, JsonView::Str(ticket.key.key@)),
        ("title"@, JsonView::Str(ticket.title@)),
        ("url"@, JsonView::Str(ticket.url@)),
    ]);
    let payload = fields.done();
    match storage.append_event_at(Some(item_id), "system", "ticket_added", &payload, now) {
        Ok(_) => {},
        Err(e) => return Err(e.message()),
    }
    let ghost s2 = storage@;
    proof {
        storage::lemma_follows_chain(s0, s1, s2);
    }
    match storage.update_work_item_state_at(item_id, WorkflowState::Queued.as_str(), now) {
        Ok(_) => {},
        Err(e) => return Err(e.message()),
    }
    let ghost s3 = storage@;
    proof {
        storage::lemma_follows_chain(s0, s2, s3);
    }
    let branch = match branch_for(repo, ty, ticket.key.key.as_str(), ticket.title.as_str()) {
        Ok(branch) => branch,
        Err(m) => return Err(m),
    };
    match storage.set_work_item_field_at(item_id, ItemField::Branch, branch.as_str(), now) {
        Ok(_) => {},
        Err(e) => return Err(e.message()),
    }
    proof {
        storage::lemma_follows_chain(s0, s3, storage@);
    }
    Ok(Intake { item_id, plan, ticket, branch })
}

impl Scheduler {
    /// First step of adding a ticket: what to fetch, and for which repository.
    pub fn add(&self, ticket_ref: &str, repo: Option<&str>) -> (r: Result<AddPlan, String>)
        ensures
            match (r, add_plan(*self, ticket_ref@, text::opt_str_text(repo))) {
                (Ok(a), Ok(b)) => a@ == b,
                (Err(a), Err(b)) => a@ == b,
                _ => false,
            },
            r matches Ok(plan) ==> table::lookup(self.config.repos@, plan.repo@) is Some
                && table::lookup(self.providers@, plan.provider@) is Some,
    {
        let (provider, key) = match resolve_ticket_ref(&self.config, ticket_ref) {
            Ok(p) => p,
            Err(m) => return Err(m),
        };
        let name = match resolve_repo_name(&self.config, repo) {
            Ok(name) => name,
            Err(m) => return Err(m),
        };
        let repo_cfg = match self.config.repos.get(name.as_str()) {
            Some(repo_cfg) => repo_cfg,
            None => return Err(String::new()),
        };
        match &repo_cfg.provider {
            None => {
                return Err(
                    "repo '".to_owned().concat(name.as_str()).concat(
                        "' has no provider configured; set `provider` in [repos.",
                    ).concat(name.as_str()).concat("]"),
                );
            },
            Some(expected) => {
                if !text_eq(expected.as_str(), provider.as_str()) {
                    return Err(
                        "ticket provider '".to_owned().concat(provider.as_str()).concat(
                            "' does not match repo '",
                        ).concat(name.as_str()).concat("' (configured provider '").concat(
                            expected.as_str(),
                        ).concat("')"),
                    );
                }
            },
        }
        if !self.providers.contains_key(provider.as_str()) {
            let env = replace_chars(to_uppercase(provider.as_str()).as_str(), '.', '-', '_');
            return Err(
                "provider '".to_owned().concat(provider.as_str()).concat(
                    "' is not usable: it needs kind = \"github\", a `user`, and a token under secret key providers.",
                ).concat(provider.as_str()).concat(" (env YARDMASTER_SECRET_PROVIDERS_").concat(
                    env.as_str(),
                ).concat(")"),
            );
        }
        Ok(AddPlan { provider, key, repo: name })
    }

    /// Second step: takes in the fetched ticket. On success its worktree is
    /// created next, on the branch of the intake.
    pub fn add_ticket(
        &self,
        storage: &mut Storage,
        plan: AddPlan,
        ty: Option<&str>,
        outcome: Outcome<Ticket, AdapterError>,
        now: &str,
    ) -> (r: Result<Intake, String>)
        requires
            old(storage).wf(),
            table::lookup(self.config.repos@, plan.repo@) is Some,
            table::lookup(self.providers@, plan.provider@) is Some,
        ensures
            final(storage).wf(),
            ({
                let ticket = fetched(plan@.key, outcome);
                let (t, v) = taken_in(
                    old(storage)@.tables,
                    plan@,
                    (table::lookup(self.providers@, plan.provider@)->0).user@,
                    (table::lookup(self.config.repos@, plan.repo@)->0).branch_template@,
                    text::opt_str_text(ty),
                    ticket,
                    now@,
                );
                final(storage)@.tables == t && intake_result(r, plan@, ticket, v)
            }),
            storage::follows(old(storage)@, final(storage)@),
    {
        proof {
            storage::lemma_follows_same(storage@);
        }
        let ticket = match outcome {
            Outcome::Done(ticket) => ticket,
            Outcome::Failed(e) => return Err(
                "fetching ticket ".to_owned().concat(plan.key.as_str()).concat(": ").concat(
                    e.message().as_str(),
                ),
            ),
            Outcome::Lost(m) => return Err(m),
        };
        let entry = match self.providers.get(plan.provider.as_str()) {
            Some(entry) => entry,
            None => return Err(String::new()),
        };
        let repo = match self.config.repos.get(plan.repo.as_str()) {
            Some(repo) => repo,
            None => return Err(String::new()),
        };
        if let Some(reason) = assignee_violation(&ticket, entry.user.as_str()) {
            return Err(
                "refusing to add: ".to_owned().concat(reason.as_str()).concat(
                    " — yardmaster never touches someone else's ticket",
                ),
            );
        }
        record_intake(storage, plan, repo, ty, ticket, now)
    }
}

/// Payload of a `worktree_created` event.
pub open spec fn worktree_payload(branch: Seq<char>, path: Seq<char>) -> JsonView {
    JsonView::Object(seq![("branch"@, JsonView::Str(branch)), ("path"@, JsonView::Str(path))])
}

/// Recording a worktree.
pub open spec fn worktree_recorded(
    t: TablesView,
    id: int,
    branch: Seq<char>,
    path: Seq<char>,
    now: Seq<char>,
) -> (TablesView, Result<(), Seq<char>>) {
    match storage::field_set(t, id, ItemField::Worktree, path, now) {
        Err(e) => (t, Err(storage::storage_message(e))),
        Ok(set) => match storage::appended(
            set,
            Some(id),
            "system"@,
            "worktree_created"@,
            worktree_payload(branch, path),
            now,
        ) {
            Err(e) => (set, Err(storage::storage_message(e))),
            Ok((u, event)) => (u, Ok(())),
        },
    }
}

/// What becomes of the worktree of an intake: recorded, or the item escalated.
pub open spec fn worktree_settled(
    t: TablesView,
    id: int,
    branch: Seq<char>,
    o: Outcome<String, WorktreeError>,
    now: Seq<char>,
) -> (TablesView, Result<(), Seq<char>>) {
    match o {
        Outcome::Lost(m) => (t, Err(m@)),
        Outcome::Failed(e) => {
            let msg = "creating worktree for branch "@ + branch + ": "@
                + worktree::worktree_message(e@);
            (escalated(t, id, "worktree_failed"@, error_json(msg), now), Err(msg))
        },
        Outcome::Done(path) => worktree_recorded(t, id, branch, path@, now),
    }
}

/// Payload of an `agent_started` event.
pub open spec fn started_payload(backend: Seq<char>, session: Seq<char>) -> JsonView {
    JsonView::Object(
        seq![("backend"@, JsonView::Str(backend)), ("session"@, JsonView::Str(session))],
    )
}

/// Recording a started agent: its session, the audit event, and the state.
pub open spec fn agent_recorded(
    t: TablesView,
    id: int,
    backend: Seq<char>,
    session: Seq<char>,
    now: Seq<char>,
) -> (TablesView, Result<(), Seq<char>>) {
    match storage::field_set(t, id, ItemField::AgentSession, session, now) {
        Err(e) => (t, Err(storage::storage_message(e))),
        Ok(set) => match storage::appended(
            set,
            Some(id),
            "system"@,
            "agent_started"@,
            started_payload(backend, session),
            now,
        ) {
            Err(e) => (set, Err(storage::storage_message(e))),
            Ok((logged, event)) => match storage::state_updated(
                logged,
                id,
                state::state_text(WorkflowState::Developing),
                now,
            ) {
                Err(e) => (logged, Err(storage::storage_message(e))),
                Ok(u) => (u, Ok(())),
            },
        },
    }
}

/// What becomes of the agent of an intake: recorded, or the item escalated.
pub open spec fn agent_settled(
    t: TablesView,
    id: int,
    backend: Seq<char>,
    o: Outcome<AgentSessionId, AdapterError>,
    now: Seq<char>,
) -> (TablesView, Result<(), Seq<char>>) {
    match o {
        Outcome::Lost(m) => (t, Err(m@)),
        Outcome::Failed(e) => {
            let msg = "starting agent backend '"@ + backend + "': "@ + adapters::adapter_message(
                e@,
            );
            (escalated(t, id, "agent_start_failed"@, error_json(msg), now), Err(msg))
        },
        Outcome::Done(session) => agent_recorded(t, id, backend, session.0@, now),
    }
}

/// How a result agrees with an outcome that carries nothing but success.
pub open spec fn message_result<T>(r: Result<T, String>, v: Result<(), Seq<char>>) -> bool {
    match (r, v) {
        (Ok(_), Ok(_)) => true,
        (Err(a), Err(b)) => a@ == b,
        _ => false,
    }
}

/// The task of an intake.
pub open spec fn task_of(i: Intake, repo: Repo, worktree: Seq<char>) -> AgentTaskView {
    AgentTaskView {
        work_item_id: i.item_id as int,
        worktree,
        ticket: i.ticket@,
        instructions: instructions_for(
            i.ticket@,
            i.plan.repo@,
            repo.base@,
            text::texts(repo.check_command@),
            i.branch@,
        ),
    }
}

impl Scheduler {
    /// Third step of adding a ticket: records the worktree. On success the
    /// agent is started next, with the task that is returned.
    pub fn add_worktree(
        &self,
        storage: &mut Storage,
        intake: &Intake,
        outcome: Outcome<String, WorktreeError>,
        now: &str,
    ) -> (r: Result<AgentTask, String>)
        requires
            old(storage).wf(),
            table::lookup(self.config.repos@, intake.plan.repo@) is Some,
        ensures
            final(storage).wf(),
            ({
                let (t, v) = worktree_settled(
                    old(storage)@.tables,
                    intake.item_id as int,
                    intake.branch@,
                    outcome,
                    now@,
                );
                final(storage)@.tables == t && message_result(r, v)
            }),
            r matches Ok(task) ==> outcome matches Outcome::Done(path) && task@ == task_of(
                *intake,
                table::lookup(self.config.repos@, intake.plan.repo@)->0,
                path@,
            ),
            storage::follows(old(storage)@, final(storage)@),
    {
        let ghost s0 = storage@;
        proof {
            storage::lemma_follows_same(s0);
        }
        let repo = match self.config.repos.get(intake.plan.repo.as_str()) {
            Some(repo) => repo,
            None => return Err(String::new()),
        };
        let path = match outcome {
            Outcome::Done(path) => path,
            Outcome::Lost(m) => return Err(m),
            Outcome::Failed(e) => {
                let msg = "creating worktree for branch ".to_owned().concat(
                    intake.branch.as_str(),
                ).concat(": ").concat(e.message().as_str());
                escalate(
                    storage,
                    intake.item_id,
                    "worktree_failed",
                    &error_object(msg.as_str()),
                    now,
                );
                return Err(msg);
            },
        };
        match storage.set_work_item_field_at(
            intake.item_id,
            ItemField::Worktree,
            path.as_str(),
            now,
        ) {
            Ok(_) => {},
            Err(e) => return Err(e.message()),
        }
        let ghost s1 = storage@;
        let fields = Fields::new().with("branch", Json::text(intake.branch.as_str())).with(
            "path",
            Json::text(path.as_str()),
        );
        assert(fields@ == seq![
            ("branch"@, JsonView::Str(intake.branch@)),
            ("path"@, JsonView::Str(path@)),
        ]);
        let payload = fields.done();
        match storage.append_event_at(
            Some(intake.item_id),
            "system",
            "worktree_created",
            &payload,
            now,
        ) {
            Ok(_) => {},
            Err(e) => return Err(e.message()),
        }
        proof {
            storage::lemma_follows_chain(s0, s1, storage@);
        }
        Ok(
            AgentTask {
                work_item_id: intake.item_id,
                worktree: path,
                instructions: compose_instructions(
                    &intake.ticket,
                    intake.plan.repo.as_str(),
                    repo,
                    intake.branch.as_str(),
                ),
                ticket: intake.ticket.clone(),
            },
        )
    }

    /// Last step: records the started agent and leaves the item `developing`.
    pub fn add_agent(
        &self,
        storage: &mut Storage,
        intake: &Intake,
        worktree: &str,
        outcome: Outcome<AgentSessionId, AdapterError>,
        now: &str,
    ) -> (r: Result<AddResult, String>)
        requires
            old(storage).wf(),
            table::lookup(self.config.repos@, intake.plan.repo@) is Some,
        ensures
            final(storage).wf(),
            ({
                let backend = config::agent_name_of(
                    table::lookup(self.config.repos@, intake.plan.repo@)->0,
                );
                let (t, v) = agent_settled(
                    old(storage)@.tables,
                    intake.item_id as int,
                    backend,
                    outcome,
                    now@,
                );
                final(storage)@.tables == t && message_result(r, v)
            }),
            r matches Ok(a) ==> a.id == intake.item_id && a.ticket@ == intake.plan.key@ && a.repo@
                == intake.plan.repo@ && a.branch@ == intake.branch@ && a.worktree@ == worktree@
                && a.state@ == state::state_text(WorkflowState::Developing),
            storage::follows(old(storage)@, final(storage)@),
    {
        let ghost s0 = storage@;
        proof {
            storage::lemma_follows_same(s0);
        }
        let repo = match self.config.repos.get(intake.plan.repo.as_str()) {
            Some(repo) => repo,
            None => return Err(String::new()),
        };
        let backend = repo.agent_name();
        let session = match outcome {
            Outcome::Done(session) => session,
            Outcome::Lost(m) => return Err(m),
            Outcome::Failed(e) => {
                let msg = "starting agent backend '".to_owned().concat(backend).concat(
                    "': ",
                ).concat(e.message().as_str());
                escalate(
                    storage,
                    intake.item_id,
                    "agent_start_failed",
                    &error_object(msg.as_str()),
                    now,
                );
                return Err(msg);
            },
        };
        match storage.set_work_item_field_at(
            intake.item_id,
            ItemField::AgentSession,
            session.0.as_str(),
            now,
        ) {
            Ok(_) => {},
            Err(e) => return Err(e.message()),
        }
        let ghost s1 = storage@;
        let fields = Fields::new().with("backend", Json::text(backend)).with(
            "session",
            Json::text(session.0.as_str()),
        );
        assert(fields@ == seq![
            ("backend"@, JsonView::Str(backend@)),
            ("session"@, JsonView::Str(session.0@)),
        ]);
        let payload = fields.done();
        match storage.append_event_at(
            Some(intake.item_id),
            "system",
            "agent_started",
            &payload,
            now,
        ) {
            Ok(_) => {},
            Err(e) => return Err(e.message()),
        }
        let ghost s2 = storage@;
        proof {
            storage::lemma_follows_chain(s0, s1, s2);
        }
        match storage.update_work_item_state_at(
            intake.item_id,
            WorkflowState::Developing.as_str(),
            now,
        ) {
            Ok(_) => {},
            Err(e) => return Err(e.message()),
        }
        proof {
            storage::lemma_follows_chain(s0, s2, storage@);
        }
        Ok(
            AddResult {
                id: intake.item_id,
                ticket: intake.plan.key.clone(),
                repo: intake.plan.repo.clone(),
                branch: intake.branch.clone(),
                worktree: worktree.to_owned(),
                state: WorkflowState::Developing.as_str().to_owned(),
            },
        )
    }
}

/// A ticket of mine that is not tracked yet is taken in to the end: once its
/// worktree and its agent are there, its work item is `developing` and knows
/// its branch, its worktree and its session. No other work item and no gate
/// request changes.
pub proof fn lemma_added_item_is_developing(
    t: TablesView,
    plan: AddPlanView,
    template: Seq<char>,
    ty: Option<Seq<char>>,
    ticket: TicketView,
    path: Seq<char>,
    backend: Seq<char>,
    session: Seq<char>,
    now: Seq<char>,
    made_at: Seq<char>,
    started_at: Seq<char>,
    other: int,
)
    requires
        storage::tables_ok(t),
        !storage::is_tracked(t, plan.provider, ticket.key.key, plan.repo),
        branch_of(template, ty, ticket.key.key, ticket.title) is Ok,
        ticket.assignee is Some,
        storage::next_item_id(t) <= i64::MAX,
        storage::next_event_id(t) + 4 <= i64::MAX,
        storage::has_item(t, other),
    ensures
        ({
            let me = ticket.assignee->0;
            let (t1, taken) = taken_in(t, plan, me, template, ty, Ok(ticket), now);
            let (id, branch) = taken->Ok_0;
            let (t2, made) = worktree_recorded(t1, id, branch, path, made_at);
            let (t3, started) = agent_recorded(t2, id, backend, session, started_at);
            &&& taken is Ok && made is Ok && started is Ok
            &&& storage::item_of(t3, id) matches Some(item) && storage::same_identity(
                item,
                plan.provider,
                ticket.key.key,
                plan.repo,
            ) && is_developing(item.row) && item.row.branch == Some(branch)
                && item.row.worktree_path == Some(path) && item.agent_session == Some(session)
            &&& storage::item_of(t3, other) == storage::item_of(t, other)
            &&& t3.gates == t.gates
            &&& t3.events.len() == t.events.len() + 5
        }),
{
    let me = ticket.assignee->0;
    let key = ticket.key.key;
    let (t1, taken) = taken_in(t, plan, me, template, ty, Ok(ticket), now);
    let known = state::state_text(WorkflowState::Known);
    let queued = state::state_text(WorkflowState::Queued);
    let developing = state::state_text(WorkflowState::Developing);
    let (a, id) = storage::item_created(t, plan.provider, key, plan.repo, known, now)->Ok_0;
    storage::lemma_creation_is_local(t, a, plan.provider, key, plan.repo, known, now, id, other);
    let added = added_payload(plan.provider, ticket);
    storage::lemma_appended_ok(a, Some(id), "system"@, "ticket_added"@, added, now);
    let b = storage::appended(a, Some(id), "system"@, "ticket_added"@, added, now)->Ok_0.0;
    assert(storage::item_of(b, id) == storage::item_of(a, id));
    assert(storage::item_of(b, other) == storage::item_of(a, other));
    storage::lemma_state_update_succeeds(b, id, queued, now);
    let c = storage::state_updated(b, id, queued, now)->Ok_0;
    storage::lemma_state_change_is_local(b, c, id, queued, now, other);
    let branch = branch_of(template, ty, key, ticket.title)->Ok_0;
    let d = storage::field_set(c, id, ItemField::Branch, branch, now)->Ok_0;
    storage::lemma_field_set_is_local(c, d, id, ItemField::Branch, branch, now, other);
    assert(t1 == d && taken == Ok::<(int, Seq<char>), Seq<char>>((id, branch)));
    let e = storage::field_set(d, id, ItemField::Worktree, path, made_at)->Ok_0;
    storage::lemma_field_set_is_local(d, e, id, ItemField::Worktree, path, made_at, other);
    let made = worktree_payload(branch, path);
    storage::lemma_appended_ok(e, Some(id), "system"@, "worktree_created"@, made, made_at);
    let f = storage::appended(e, Some(id), "system"@, "worktree_created"@, made, made_at)->Ok_0.0;
    assert(storage::item_of(f, id) == storage::item_of(e, id));
    assert(storage::item_of(f, other) == storage::item_of(e, other));
    let g = storage::field_set(f, id, ItemField::AgentSession, session, started_at)->Ok_0;
    storage::lemma_field_set_is_local(f, g, id, ItemField::AgentSession, session, started_at, other);
    let began = started_payload(backend, session);
    storage::lemma_appended_ok(g, Some(id), "system"@, "agent_started"@, began, started_at);
    let h = storage::appended(g, Some(id), "system"@, "agent_started"@, began, started_at)->Ok_0.0;
    assert(storage::item_of(h, id) == storage::item_of(g, id));
    assert(storage::item_of(h, other) == storage::item_of(g, other));
    storage::lemma_state_update_succeeds(h, id, developing, started_at);
    let k = storage::state_updated(h, id, developing, started_at)->Ok_0;
    storage::lemma_state_change_is_local(h, k, id, developing, started_at, other);
}

// ---------------------------------------------------------------------------
// Polling

/// Work items that an agent works on.
pub open spec fn is_developing(row: WorkItemView) -> bool {
    row.state == state::state_text(WorkflowState::Developing)
}

/// Every work item that an agent works on, in creation order.
pub open spec fn developing_of(t: TablesView) -> Seq<WorkItemView> {
    storage::listed(t).filter(|row: WorkItemView| is_developing(row))
}

/// What to ask about a developing item: which session, of which backend.
#[derive(Debug, PartialEq, Eq)]
pub struct StatusQuery {
    pub session: String,
    pub backend: String,
}

/// An item is asked about when no gate of it is pending, it has an agent, its
/// repository is configured, and the backend has a runner.
pub open spec fn query_of(s: Scheduler, t: TablesView, row: WorkItemView) -> Option<
    (Seq<char>, Seq<char>),
> {
    if storage::pending_of(t, Some(row.id)).len() > 0 {
        None
    } else {
        match storage::item_of(t, row.id) {
            None => None,
            Some(item) => match item.agent_session {
                None => None,
                Some(session) => match table::lookup(s.config.repos@, row.repo) {
                    None => None,
                    Some(repo) => {
                        let backend = config::agent_name_of(repo);
                        if table::lookup(s.runners@, backend) is Some {
                            Some((session, backend))
                        } else {
                            None
                        }
                    },
                },
            },
        }
    }
}

/// While a gate of an item waits for its verdict, the item is left alone.
pub proof fn lemma_pending_gate_pauses(s: Scheduler, t: TablesView, row: WorkItemView)
    requires
        storage::pending_of(t, Some(row.id)).len() > 0,
    ensures
        query_of(s, t, row) is None,
{
}

/// Payload of an `agent_question` event.
pub open spec fn question_payload(prompt: Seq<char>, session: Seq<char>) -> JsonView {
    JsonView::Object(
        seq![("prompt"@, JsonView::Str(prompt)), ("session"@, JsonView::Str(session))],
    )
}

/// What a status means for the tables: a question is recorded once, a failure
/// escalates.
pub open spec fn polled(
    t: TablesView,
    asked: bool,
    id: int,
    session: Seq<char>,
    o: Outcome<AgentStatus, AdapterError>,
    now: Seq<char>,
) -> TablesView {
    match o {
        Outcome::Done(status) => match status@ {
            AgentStatusView::Running => t,
            AgentStatusView::WaitingInput { prompt } => if asked {
                t
            } else {
                match storage::appended(
                    t,
                    Some(id),
                    "system"@,
                    "agent_question"@,
                    question_payload(prompt, session),
                    now,
                ) {
                    Ok((u, event)) => u,
                    Err(_) => t,
                }
            },
            AgentStatusView::Finished { success, summary } => if success {
                t
            } else {
                escalated(
                    t,
                    id,
                    "agent_failed"@,
                    JsonView::Object(seq![("summary"@, JsonView::Str(summary))]),
                    now,
                )
            },
            AgentStatusView::Failed { message } => escalated(
                t,
                id,
                "agent_failed"@,
                JsonView::Object(seq![("message"@, JsonView::Str(message))]),
                now,
            ),
        },
        _ => t,
    }
}

/// Whether the item's question counts as recorded afterwards.
pub open spec fn asked_after(
    t: TablesView,
    asked: bool,
    id: int,
    session: Seq<char>,
    o: Outcome<AgentStatus, AdapterError>,
    now: Seq<char>,
) -> bool {
    match o {
        Outcome::Done(status) => match status@ {
            AgentStatusView::WaitingInput { prompt } => asked || storage::appended(
                t,
                Some(id),
                "system"@,
                "agent_question"@,
                question_payload(prompt, session),
                now,
            ) is Ok,
            _ => false,
        },
        _ => asked,
    }
}

/// A question that was recorded is not recorded again while it stands.
pub proof fn lemma_question_is_recorded_once(
    t: TablesView,
    id: int,
    session: Seq<char>,
    status: AgentStatus,
    now: Seq<char>,
)
    requires
        status@ is WaitingInput,
    ensures
        polled(t, true, id, session, Outcome::Done(status), now) == t,
        asked_after(t, true, id, session, Outcome::Done(status), now),
{
}

fn without(v: &Vec<i64>, x: i64) -> (r: Vec<i64>)
    ensures
        forall|y: i64| #[trigger] r@.contains(y) <==> (v@.contains(y) && y != x),
{
    let mut out: Vec<i64> = Vec::new();
    let mut i: usize = 0;
    while i < v.len()
        invariant
            i <= v@.len(),
            forall|k: int| 0 <= k < out@.len() ==> v@.contains(#[trigger] out@[k]) && out@[k] != x,
            forall|k: int| 0 <= k < i && #[trigger] v@[k] != x ==> out@.contains(v@[k]),
        decreases v@.len() - i,
    {
        let ghost before = out@;
        if v[i] != x {
            out.push(v[i]);
            assert(out@.last() == v@[i as int]);
            assert forall|k: int| 0 <= k < i + 1 && #[trigger] v@[k] != x implies out@.contains(
                v@[k],
            ) by {
                if k < i {
                    let j = choose|j: int| 0 <= j < before.len() && before[j] == v@[k];
                    assert(out@[j] == v@[k]);
                } else {
                    assert(out@[out@.len() - 1] == v@[k]);
                }
            }
        }
        i = i + 1;
    }
    assert forall|y: i64| #[trigger] out@.contains(y) <==> (v@.contains(y) && y != x) by {
        if v@.contains(y) && y != x {
            let k = choose|k: int| 0 <= k < v@.len() && v@[k] == y;
            assert(v@[k] != x);
        }
    }
    out
}

fn holds(v: &Vec<i64>, x: i64) -> (r: bool)
    ensures
        r == v@.contains(x),
{
    let mut i: usize = 0;
    while i < v.len()
        invariant
            i <= v@.len(),
            forall|k: int| 0 <= k < i ==> #[trigger] v@[k] != x,
        decreases v@.len() - i,
    {
        if v[i] == x {
            assert(v@[i as int] == x);
            return true;
        }
        i = i + 1;
    }
    false
}

fn one_field(key: &str, value: &str) -> (r: Json)
    ensures
        r@ == JsonView::Object(seq![(key@, JsonView::Str(value@))]),
{
    let fields = Fields::new().with(key, Json::text(value));
    assert(fields@ == seq![(key@, JsonView::Str(value@))]);
    fields.done()
}

impl Scheduler {
    /// The items to look at in one poll.
    pub fn tick(&self, storage: &Storage) -> (r: Vec<WorkItemRow>)
        ensures
            storage::work_item_views(r@) == developing_of(storage@.tables),
    {
        let rows = match storage.list_work_items() {
            Ok(rows) => rows,
            Err(_) => return Vec::new(),
        };
        let ghost all = storage::listed(storage@.tables);
        let ghost keep = |row: WorkItemView| is_developing(row);
        let mut out: Vec<WorkItemRow> = Vec::new();
        let mut i: usize = 0;
        proof {
            reveal(Seq::filter);
            assert(all.take(0).filter(keep) == Seq::<WorkItemView>::empty());
            assert(storage::work_item_views(out@) == Seq::<WorkItemView>::empty());
        }
        while i < rows.len()
            invariant
                i <= rows@.len(),
                all == storage::work_item_views(rows@),
                keep == |row: WorkItemView| is_developing(row),
                storage::work_item_views(out@) == all.take(i as int).filter(keep),
            decreases rows@.len() - i,
        {
            let row = &rows[i];
            proof {
                assert(all[i as int] == row@);
                storage::lemma_filter_step(all, i as int, keep);
            }
            let ghost before = storage::work_item_views(out@);
            if text_eq(row.state.as_str(), WorkflowState::Developing.as_str()) {
                out.push(row.clone());
                assert(storage::work_item_views(out@) == before.push(row@));
            }
            i = i + 1;
        }
        assert(all.take(i as int) == all);
        out
    }

    /// What to ask about an item, if anything.
    pub fn query(&self, storage: &Storage, item: &WorkItemRow) -> (r: Option<StatusQuery>)
        requires
            storage.wf(),
        ensures
            match (r, query_of(*self, storage@.tables, item@)) {
                (Some(q), Some((session, backend))) => q.session@ == session && q.backend@
                    == backend,
                (None, None) => true,
                _ => false,
            },
    {
        match storage.count_pending_gates(item.id) {
            Ok(n) => if n > 0 {
                return None;
            },
            Err(_) => return None,
        }
        let session = match storage.work_item_agent_session(item.id) {
            Ok(Some(session)) => session,
            Ok(None) => return None,
            Err(_) => return None,
        };
        let repo = match self.config.repos.get(item.repo.as_str()) {
            Some(repo) => repo,
            None => return None,
        };
        let backend = repo.agent_name();
        if !self.runners.contains_key(backend) {
            return None;
        }
        Some(StatusQuery { session, backend: backend.to_owned() })
    }

    /// Acts on a status. The summary of an agent that succeeded is handed back:
    /// its item is finished next.
    pub fn on_status(
        &mut self,
        storage: &mut Storage,
        item_id: i64,
        session: &str,
        outcome: Outcome<AgentStatus, AdapterError>,
        now: &str,
    ) -> (r: Option<String>)
        requires
            old(storage).wf(),
        ensures
            final(storage).wf(),
            final(storage)@.tables == polled(
                old(storage)@.tables,
                old(self).asked@.contains(item_id),
                item_id as int,
                session@,
                outcome,
                now@,
            ),
            storage::follows(old(storage)@, final(storage)@),
            forall|id: i64|
                #[trigger] final(self).asked@.contains(id) == if id == item_id {
                    asked_after(
                        old(storage)@.tables,
                        old(self).asked@.contains(item_id),
                        item_id as int,
                        session@,
                        outcome,
                        now@,
                    )
                } else {
                    old(self).asked@.contains(id)
                },
            final(self).config == old(self).config,
            final(self).providers == old(self).providers,
            final(self).runners == old(self).runners,
            final(self).worktrees == old(self).worktrees,
            final(self).policy == old(self).policy,
            final(self).sessions_root == old(self).sessions_root,
            match outcome {
                Outcome::Done(AgentStatus::Finished { success: true, summary }) => r matches Some(s)
                    && s@ == summary@,
                _ => r is None,
            },
    {
        proof {
            storage::lemma_follows_same(storage@);
        }
        let status = match outcome {
            Outcome::Done(status) => status,
            Outcome::Failed(_) => return None,
            Outcome::Lost(_) => return None,
        };
        match status {
            AgentStatus::Running => {
                self.asked = without(&self.asked, item_id);
                None
            },
            AgentStatus::WaitingInput { prompt } => {
                if holds(&self.asked, item_id) {
                    return None;
                }
                let fields = Fields::new().with("prompt", Json::text(prompt.as_str())).with(
                    "session",
                    Json::text(session),
                );
                assert(fields@ == seq![
                    ("prompt"@, JsonView::Str(prompt@)),
                    ("session"@, JsonView::Str(session@)),
                ]);
                let payload = fields.done();
                match storage.append_event_at(
                    Some(item_id),
                    "system",
                    "agent_question",
                    &payload,
                    now,
                ) {
                    Ok(_) => {
                        let ghost before = self.asked@;
                        self.asked.push(item_id);
                        proof {
                            assert forall|id: i64| #[trigger] self.asked@.contains(id) == (
                            before.contains(id) || id == item_id) by {
                                if before.contains(id) {
                                    let k = choose|k: int|
                                        0 <= k < before.len() && before[k] == id;
                                    assert(self.asked@[k] == id);
                                }
                                if id == item_id {
                                    assert(self.asked@[before.len() as int] == id);
                                }
                                if self.asked@.contains(id) && id != item_id {
                                    let k = choose|k: int|
                                        0 <= k < self.asked@.len() && self.asked@[k] == id;
                                    assert(before[k] == id);
                                }
                            }
                        }
                    },
                    Err(_) => {},
                }
                None
            },
            AgentStatus::Finished { success, summary } => {
                self.asked = without(&self.asked, item_id);
                if success {
                    Some(summary)
                } else {
                    escalate(
                        storage,
                        item_id,
                        "agent_failed",
                        &one_field("summary", summary.as_str()),
                        now,
                    );
                    None
                }
            },
            AgentStatus::Failed { message } => {
                self.asked = without(&self.asked, item_id);
                escalate(
                    storage,
                    item_id,
                    "agent_failed",
                    &one_field("message", message.as_str()),
                    now,
                );
                None
            },
        }
    }
}

// ---------------------------------------------------------------------------
// Finishing an item

/// What came of running a command.
pub enum Run {
    /// It ran to its end; no exit code when a signal ended it.
    Exited { success: bool, code: Option<i32>, stderr: String },
    /// It could not be started.
    NotStarted(String),
    /// The attempt itself was lost.
    Lost(String),
}

/// What to do next for an item whose agent succeeded.
pub enum FinishStep {
    /// Run the local checks.
    Check { argv: Vec<String>, cwd: String },
    /// Push the branch.
    Push { argv: Vec<String>, cwd: String },
    /// Fetch the ticket again: the remote is the source of truth.
    Fetch(TicketKey),
    /// Nothing more.
    Stop,
}

#[verifier::ext_equal]
pub enum FinishStepView {
    Check { argv: Seq<Seq<char>>, cwd: Seq<char> },
    Push { argv: Seq<Seq<char>>, cwd: Seq<char> },
    Fetch(TicketKeyView),
    Stop,
}

impl View for FinishStep {
    type V = FinishStepView;

    open spec fn view(&self) -> FinishStepView {
        match *self {
            FinishStep::Check { argv, cwd } => FinishStepView::Check {
                argv: text::texts(argv@),
                cwd: cwd@,
            },
            FinishStep::Push { argv, cwd } => FinishStepView::Push {
                argv: text::texts(argv@),
                cwd: cwd@,
            },
            FinishStep::Fetch(key) => FinishStepView::Fetch(key@),
            FinishStep::Stop => FinishStepView::Stop,
        }
    }
}

/// The command that pushes a branch.
pub open spec fn push_args(branch: Seq<char>) -> Seq<Seq<char>> {
    seq!["git"@, "push"@, "-u"@, "origin"@, branch]
}

fn push_argv(branch: &str) -> (r: Vec<String>)
    ensures
        text::texts(r@) == push_args(branch@),
{
    let v = vec![
        "git".to_owned(),
        "push".to_owned(),
        "-u".to_owned(),
        "origin".to_owned(),
        branch.to_owned(),
    ];
    assert(text::texts(v@) == push_args(branch@));
    v
}

/// An audit event, as far as it can be recorded.
pub open spec fn noted(
    t: TablesView,
    id: int,
    kind: Seq<char>,
    payload: JsonView,
    now: Seq<char>,
) -> TablesView {
    match storage::appended(t, Some(id), "system"@, kind, payload, now) {
        Ok((u, event)) => u,
        Err(_) => t,
    }
}

fn note(storage: &mut Storage, id: i64, kind: &str, payload: &Json, now: &str)
    requires
        old(storage).wf(),
    ensures
        final(storage).wf(),
        final(storage)@.tables == noted(old(storage)@.tables, id as int, kind@, payload@, now@),
        storage::follows(old(storage)@, final(storage)@),
{
    proof {
        storage::lemma_follows_same(storage@);
    }
    let _ = storage.append_event_at(Some(id), "system", kind, payload, now);
}

/// The first step of finishing an item.
pub open spec fn finish_started(
    t: TablesView,
    row: WorkItemView,
    checks: Seq<Seq<char>>,
    now: Seq<char>,
) -> (TablesView, FinishStepView) {
    match (row.branch, row.worktree_path) {
        (Some(branch), Some(worktree)) => if checks.len() > 0 {
            (t, FinishStepView::Check { argv: checks, cwd: worktree })
        } else {
            (t, FinishStepView::Push { argv: push_args(branch), cwd: worktree })
        },
        _ => (
            escalated(
                t,
                row.id,
                "pipeline_failed"@,
                error_json("work item has no branch/worktree recorded"@),
                now,
            ),
            FinishStepView::Stop,
        ),
    }
}

pub open spec fn opt_code(code: Option<i32>) -> Option<int> {
    match code {
        Some(c) => Some(c as int),
        None => None,
    }
}

/// The end of a command's error output that is kept.
pub open spec fn stderr_tail(stderr: Seq<char>) -> JsonView {
    JsonView::Str(last_of(stderr, STDERR_TAIL_CHARS as nat))
}

/// What becomes of the local checks: passed and on to the push, or escalated.
pub open spec fn checks_settled(
    t: TablesView,
    id: int,
    branch: Seq<char>,
    worktree: Seq<char>,
    checks: Seq<Seq<char>>,
    run: Run,
    now: Seq<char>,
) -> (TablesView, FinishStepView) {
    let command = ("command"@, json::text_list(checks));
    match run {
        Run::Exited { success, code, stderr } => if success {
            (
                noted(t, id, "check_passed"@, JsonView::Object(seq![command]), now),
                FinishStepView::Push { argv: push_args(branch), cwd: worktree },
            )
        } else {
            (
                escalated(
                    t,
                    id,
                    "check_failed"@,
                    JsonView::Object(
                        seq![
                            command,
                            ("exit_code"@, json::nullable_int(opt_code(code))),
                            ("stderr_tail"@, stderr_tail(stderr@)),
                        ],
                    ),
                    now,
                ),
                FinishStepView::Stop,
            )
        },
        Run::NotStarted(e) => (
            escalated(
                t,
                id,
                "check_failed"@,
                JsonView::Object(seq![command, ("error"@, JsonView::Str(e@))]),
                now,
            ),
            FinishStepView::Stop,
        ),
        Run::Lost(m) => (
            escalated(t, id, "check_failed"@, error_json(m@), now),
            FinishStepView::Stop,
        ),
    }
}

/// What becomes of the push: recorded and on to the ticket, or escalated.
pub open spec fn push_settled(
    s: Scheduler,
    t: TablesView,
    row: WorkItemView,
    branch: Seq<char>,
    run: Run,
    now: Seq<char>,
) -> (TablesView, FinishStepView) {
    let pushed = ("branch"@, JsonView::Str(branch));
    match run {
        Run::Exited { success, code, stderr } => if success {
            let logged = noted(
                t,
                row.id,
                "branch_pushed"@,
                JsonView::Object(seq![pushed, ("remote"@, JsonView::Str("origin"@))]),
                now,
            );
            if table::lookup(s.providers@, row.provider) is Some {
                (
                    logged,
                    FinishStepView::Fetch(
                        TicketKeyView { provider: row.provider, key: row.ticket_key },
                    ),
                )
            } else {
                (
                    escalated(
                        logged,
                        row.id,
                        "pr_draft_failed"@,
                        error_json("provider '"@ + row.provider + "' is not usable"@),
                        now,
                    ),
                    FinishStepView::Stop,
                )
            }
        } else {
            (
                escalated(
                    t,
                    row.id,
                    "push_failed"@,
                    JsonView::Object(
                        seq![
                            pushed,
                            ("exit_code"@, json::nullable_int(opt_code(code))),
                            ("stderr_tail"@, stderr_tail(stderr@)),
                        ],
                    ),
                    now,
                ),
                FinishStepView::Stop,
            )
        },
        Run::NotStarted(e) => (
            escalated(
                t,
                row.id,
                "push_failed"@,
                JsonView::Object(seq![pushed, ("error"@, JsonView::Str(e@))]),
                now,
            ),
            FinishStepView::Stop,
        ),
        Run::Lost(m) => (
            escalated(t, row.id, "push_failed"@, error_json(m@), now),
            FinishStepView::Stop,
        ),
    }
}

/// The end of finishing an item: a gate request that carries the full draft
/// of the pull request, or an escalation.
pub open spec fn draft_settled(
    t: TablesView,
    row: WorkItemView,
    remote_repo: Option<Seq<char>>,
    base: Seq<char>,
    branch: Seq<char>,
    summary: Seq<char>,
    ticket: Result<TicketView, Seq<char>>,
    now: Seq<char>,
) -> TablesView {
    match ticket {
        Err(m) => escalated(t, row.id, "pr_draft_failed"@, error_json(m), now),
        Ok(ticket) => match draft_for(remote_repo, base, ticket, branch, summary) {
            Err(m) => escalated(t, row.id, "pr_draft_failed"@, error_json(m), now),
            Ok(draft) => match storage::gate_created(
                t,
                row.id,
                gate::action_text(GatedAction::CreatePr),
                adapters::draft_json(draft),
                now,
            ) {
                Ok((u, id)) => u,
                Err(e) => escalated(
                    t,
                    row.id,
                    "pr_draft_failed"@,
                    error_json(storage::storage_message(e)),
                    now,
                ),
            },
        },
    }
}

impl Scheduler {
    /// First step for an item whose agent succeeded: local checks where there
    /// are any, else the push.
    pub fn finish_item(
        &self,
        storage: &mut Storage,
        item: &WorkItemRow,
        repo: &Repo,
        now: &str,
    ) -> (r: FinishStep)
        requires
            old(storage).wf(),
        ensures
            final(storage).wf(),
            (final(storage)@.tables, r@) == finish_started(
                old(storage)@.tables,
                item@,
                text::texts(repo.check_command@),
                now@,
            ),
            storage::follows(old(storage)@, final(storage)@),
    {
        proof {
            storage::lemma_follows_same(storage@);
        }
        if let Some(branch) = &item.branch {
            if let Some(worktree) = &item.worktree_path {
                return if repo.check_command.len() > 0 {
                    FinishStep::Check {
                        argv: copy_strings(&repo.check_command),
                        cwd: worktree.clone(),
                    }
                } else {
                    FinishStep::Push { argv: push_argv(branch.as_str()), cwd: worktree.clone() }
                };
            }
        }
        escalate(
            storage,
            item.id,
            "pipeline_failed",
            &error_object("work item has no branch/worktree recorded"),
            now,
        );
        FinishStep::Stop
    }

    /// After the local checks.
    pub fn finish_checks(
        &self,
        storage: &mut Storage,
        item: &WorkItemRow,
        repo: &Repo,
        run: Run,
        now: &str,
    ) -> (r: FinishStep)
        requires
            old(storage).wf(),
            item.branch is Some,
            item.worktree_path is Some,
        ensures
            final(storage).wf(),
            (final(storage)@.tables, r@) == checks_settled(
                old(storage)@.tables,
                item.id as int,
                item.branch->0@,
                item.worktree_path->0@,
                text::texts(repo.check_command@),
                run,
                now@,
            ),
            storage::follows(old(storage)@, final(storage)@),
            !(run matches Run::Exited { success, .. } && success) ==> r is Stop,
            run matches Run::Exited { success, .. } && success ==> r is Push,
    {
        let branch = match &item.branch {
            Some(branch) => branch,
            None => return FinishStep::Stop,
        };
        let worktree = match &item.worktree_path {
            Some(worktree) => worktree,
            None => return FinishStep::Stop,
        };
        let command = Fields::new().with("command", Json::strings(&repo.check_command));
        let ghost checks = text::texts(repo.check_command@);
        assert(command@ == seq![("command"@, json::text_list(checks))]);
        match run {
            Run::Exited { success, code, stderr } => {
                if success {
                    note(storage, item.id, "check_passed", &command.done(), now);
                    FinishStep::Push { argv: push_argv(branch.as_str()), cwd: worktree.clone() }
                } else {
                    let tail = tail_chars(stderr.as_str(), STDERR_TAIL_CHARS);
                    let fields = command.with("exit_code", Json::opt_i32(code)).with(
                        "stderr_tail",
                        Json::text(tail.as_str()),
                    );
                    assert(fields@ == seq![
                        ("command"@, json::text_list(checks)),
                        ("exit_code"@, json::nullable_int(opt_code(code))),
                        ("stderr_tail"@, stderr_tail(stderr@)),
                    ]);
                    escalate(storage, item.id, "check_failed", &fields.done(), now);
                    FinishStep::Stop
                }
            },
            Run::NotStarted(e) => {
                let fields = command.with("error", Json::text(e.as_str()));
                assert(fields@ == seq![
                    ("command"@, json::text_list(checks)),
                    ("error"@, JsonView::Str(e@)),
                ]);
                escalate(storage, item.id, "check_failed", &fields.done(), now);
                FinishStep::Stop
            },
            Run::Lost(m) => {
                escalate(storage, item.id, "check_failed", &error_object(m.as_str()), now);
                FinishStep::Stop
            },
        }
    }

    /// After the push.
    pub fn finish_push(&self, storage: &mut Storage, item: &WorkItemRow, run: Run, now: &str) -> (r:
        FinishStep)
        requires
            old(storage).wf(),
            item.branch is Some,
        ensures
            final(storage).wf(),
            (final(storage)@.tables, r@) == push_settled(
                *self,
                old(storage)@.tables,
                item@,
                item.branch->0@,
                run,
                now@,
            ),
            storage::follows(old(storage)@, final(storage)@),
            !(run matches Run::Exited { success, .. } && success) ==> r is Stop,
    {
        let ghost before = storage@;
        let branch = match &item.branch {
            Some(branch) => branch,
            None => return FinishStep::Stop,
        };
        let pushed = Fields::new().with("branch", Json::text(branch.as_str()));
        assert(pushed@ == seq![("branch"@, JsonView::Str(branch@))]);
        match run {
            Run::Exited { success, code, stderr } => {
                if success {
                    let fields = pushed.with("remote", Json::text("origin"));
                    assert(fields@ == seq![
                        ("branch"@, JsonView::Str(branch@)),
                        ("remote"@, JsonView::Str("origin"@)),
                    ]);
                    note(storage, item.id, "branch_pushed", &fields.done(), now);
                    let ghost logged = storage@;
                    if self.providers.contains_key(item.provider.as_str()) {
                        FinishStep::Fetch(
                            TicketKey {
                                provider: item.provider.clone(),
                                key: item.ticket_key.clone(),
                            },
                        )
                    } else {
                        let msg = "provider '".to_owned().concat(item.provider.as_str()).concat(
                            "' is not usable",
                        );
                        escalate(
                            storage,
                            item.id,
                            "pr_draft_failed",
                            &error_object(msg.as_str()),
                            now,
                        );
                        proof {
                            storage::lemma_follows_chain(before, logged, storage@);
                        }
                        FinishStep::Stop
                    }
                } else {
                    let tail = tail_chars(stderr.as_str(), STDERR_TAIL_CHARS);
                    let fields = pushed.with("exit_code", Json::opt_i32(code)).with(
                        "stderr_tail",
                        Json::text(tail.as_str()),
                    );
                    assert(fields@ == seq![
                        ("branch"@, JsonView::Str(branch@)),
                        ("exit_code"@, json::nullable_int(opt_code(code))),
                        ("stderr_tail"@, stderr_tail(stderr@)),
                    ]);
                    escalate(storage, item.id, "push_failed", &fields.done(), now);
                    FinishStep::Stop
                }
            },
            Run::NotStarted(e) => {
                let fields = pushed.with("error", Json::text(e.as_str()));
                assert(fields@ == seq![
                    ("branch"@, JsonView::Str(branch@)),
                    ("error"@, JsonView::Str(e@)),
                ]);
                escalate(storage, item.id, "push_failed", &fields.done(), now);
                FinishStep::Stop
            },
            Run::Lost(m) => {
                escalate(storage, item.id, "push_failed", &error_object(m.as_str()), now);
                FinishStep::Stop
            },
        }
    }

    /// Last step: a gate in front of the pull request. The item stays
    /// `developing` while that gate is pending.
    pub fn finish_ticket(
        &self,
        storage: &mut Storage,
        item: &WorkItemRow,
        repo: &Repo,
        summary: &str,
        outcome: Outcome<Ticket, AdapterError>,
        now: &str,
    )
        requires
            old(storage).wf(),
            item.branch is Some,
        ensures
            final(storage).wf(),
            final(storage)@.tables == draft_settled(
                old(storage)@.tables,
                item@,
                text::opt_text(repo.remote_repo),
                repo.base@,
                item.branch->0@,
                summary@,
                fetched(item.ticket_key@, outcome),
                now@,
            ),
            storage::follows(old(storage)@, final(storage)@),
    {
        proof {
            storage::lemma_follows_same(storage@);
        }
        let branch = match &item.branch {
            Some(branch) => branch,
            None => return,
        };
        let ticket = match outcome {
            Outcome::Done(ticket) => ticket,
            Outcome::Failed(e) => {
                let msg = "fetching ticket ".to_owned().concat(item.ticket_key.as_str()).concat(
                    ": ",
                ).concat(e.message().as_str());
                escalate(storage, item.id, "pr_draft_failed", &error_object(msg.as_str()), now);
                return;
            },
            Outcome::Lost(m) => {
                escalate(storage, item.id, "pr_draft_failed", &error_object(m.as_str()), now);
                return;
            },
        };
        let draft = match pr_draft_for(repo, &ticket, branch.as_str(), summary) {
            Ok(draft) => draft,
            Err(m) => {
                escalate(storage, item.id, "pr_draft_failed", &error_object(m.as_str()), now);
                return;
            },
        };
        let payload = draft.to_json();
        let requested = {
            let mut engine = GateEngine::new(storage);
            engine.request_at(item.id, GatedAction::CreatePr, &payload, now)
        };
        match requested {
            Ok(_) => {},
            Err(e) => escalate(
                storage,
                item.id,
                "pr_draft_failed",
                &error_object(e.message().as_str()),
                now,
            ),
        }
    }
}

/// Asking for a pull request changes no work item: the item stays as it is,
/// `developing`, and a pending gate request carries the full draft.
pub proof fn lemma_item_waits_for_its_gate(
    t: TablesView,
    row: WorkItemView,
    remote_repo: Option<Seq<char>>,
    base: Seq<char>,
    branch: Seq<char>,
    summary: Seq<char>,
    ticket: TicketView,
    now: Seq<char>,
)
    requires
        storage::tables_ok(t),
        storage::has_item(t, row.id),
        storage::next_gate_id(t) <= i64::MAX,
        storage::next_event_id(t) <= i64::MAX,
        remote_repo is Some,
    ensures
        ({
            let u = draft_settled(t, row, remote_repo, base, branch, summary, Ok(ticket), now);
            let draft = draft_for(remote_repo, base, ticket, branch, summary)->Ok_0;
            let id = storage::next_gate_id(t);
            &&& u.items == t.items
            &&& storage::gate_of(u, id) matches Some(g) && g.status == "pending"@
                && g.action_kind == gate::action_text(GatedAction::CreatePr)
                && adapters::draft_of(g.payload) == Ok::<PrDraftView, Seq<char>>(draft)
                && g.work_item_id == row.id
            &&& storage::pending_of(u, Some(row.id)).len() > 0
        }),
{
    let draft = draft_for(remote_repo, base, ticket, branch, summary)->Ok_0;
    let u = draft_settled(t, row, remote_repo, base, branch, summary, Ok(ticket), now);
    let action = gate::action_text(GatedAction::CreatePr);
    let payload = adapters::draft_json(draft);
    let id = storage::next_gate_id(t);
    storage::lemma_request_succeeds(t, row.id, action, payload, now);
    storage::lemma_request_is_pending(t, u, row.id, action, payload, now, id);
    adapters::lemma_draft_round_trip(draft);
}

// ---------------------------------------------------------------------------
// Gates

/// A pending gate request as clients see it.
pub open spec fn is_gate_info(info: GateInfo, gate: GateView, row: WorkItemView) -> bool {
    &&& info.id == gate.id
    &&& info.work_item_id == gate.work_item_id
    &&& info.ticket@ == row.ticket_key
    &&& info.repo@ == row.repo
    &&& info.action@ == gate.action_kind
    &&& info.created_at@ == gate.created_at
    &&& info.payload@ == gate.payload
}

/// The provider whose forge serves a repository.
pub open spec fn forge_of(s: Scheduler, repo: Seq<char>) -> Result<Seq<char>, Seq<char>> {
    match table::lookup(s.config.repos@, repo) {
        None => Err("repo '"@ + repo + "' is not configured"@),
        Some(cfg) => match cfg.provider {
            None => Err("repo '"@ + repo + "' has no provider configured"@),
            Some(provider) => if table::lookup(s.providers@, provider@) is Some {
                Ok(provider@)
            } else {
                Err("provider '"@ + provider@ + "' is not usable"@)
            },
        },
    }
}

/// An approved pull request, to be created on the forge of a provider.
pub struct Approved {
    pub gate_id: i64,
    pub work_item_id: i64,
    pub provider: String,
    pub draft: PrDraft,
}

/// Approving a gate request: the verdict is recorded first, and only then may
/// its action be executed. What is executed is the draft that the request
/// carries.
pub open spec fn approval(s: Scheduler, t: TablesView, gate_id: int, now: Seq<char>) -> (
    TablesView,
    Result<(int, Seq<char>, PrDraftView), Seq<char>>,
) {
    match storage::gate_of(t, gate_id) {
        None => (
            t,
            Err(storage::storage_message(StorageErrorView::GateRequestNotFound(gate_id))),
        ),
        Some(gate) => match gate::action_named(gate.action_kind) {
            None => (
                t,
                Err(
                    "gate "@ + text::int_text(gate_id) + " has unknown action "@ + text::debug_text(
                        gate.action_kind,
                    ),
                ),
            ),
            Some(action) => if !(action is CreatePr) {
                (
                    t,
                    Err(
                        "no executor for gated action '"@ + gate::action_text(action) + "' yet"@,
                    ),
                )
            } else {
                match adapters::draft_of(gate.payload) {
                    Err(e) => (
                        t,
                        Err(
                            "gate "@ + text::int_text(gate_id) + " payload is not a PR draft: "@
                                + e,
                        ),
                    ),
                    Ok(draft) => match storage::item_of(t, gate.work_item_id) {
                        None => (
                            t,
                            Err(
                                storage::storage_message(
                                    StorageErrorView::WorkItemNotFound(gate.work_item_id),
                                ),
                            ),
                        ),
                        Some(item) => match forge_of(s, item.row.repo) {
                            Err(m) => (t, Err(m)),
                            Ok(provider) => match gate::approved(t, gate_id, "human"@, now) {
                                Err(e) => (t, Err(storage::storage_message(e))),
                                Ok(u) => (u, Ok((gate.work_item_id, provider, draft))),
                            },
                        },
                    },
                }
            },
        },
    }
}

/// `owner/repo#number`.
pub open spec fn pr_text(pr: PrRefView) -> Seq<char> {
    pr.repo + "#"@ + text::int_text(pr.number)
}

/// What becomes of an approved pull request: recorded and pending, or the item
/// escalated.
pub open spec fn creation_settled(
    t: TablesView,
    id: int,
    repo: Seq<char>,
    o: Outcome<PrRef, AdapterError>,
    now: Seq<char>,
) -> (TablesView, Result<Seq<char>, Seq<char>>) {
    match o {
        Outcome::Lost(m) => (
            escalated(t, id, "pr_create_failed"@, error_json(m@), now),
            Err(m@),
        ),
        Outcome::Failed(e) => {
            let msg = "creating PR for "@ + repo + ": "@ + adapters::adapter_message(e@);
            (escalated(t, id, "pr_create_failed"@, error_json(msg), now), Err(msg))
        },
        Outcome::Done(pr) => match storage::field_set(t, id, ItemField::PrRef, pr_text(pr@), now) {
            Err(e) => (t, Err(storage::storage_message(e))),
            Ok(set) => match storage::state_updated(
                set,
                id,
                state::state_text(WorkflowState::PrPending),
                now,
            ) {
                Err(e) => (set, Err(storage::storage_message(e))),
                Ok(u) => (u, Ok(pr_text(pr@))),
            },
        },
    }
}

/// Rejecting a gate request: the verdict is recorded and the item escalated.
pub open spec fn rejection(
    t: TablesView,
    gate_id: int,
    reason: Option<Seq<char>>,
    now: Seq<char>,
) -> (TablesView, Result<int, Seq<char>>) {
    match storage::gate_of(t, gate_id) {
        None => (
            t,
            Err(storage::storage_message(StorageErrorView::GateRequestNotFound(gate_id))),
        ),
        Some(gate) => match gate::rejected(
            t,
            gate_id,
            "human"@,
            or_text(reason, "rejected"@),
            now,
        ) {
            Err(e) => (t, Err(storage::storage_message(e))),
            Ok(resolved) => match storage::state_updated(
                resolved,
                gate.work_item_id,
                state::state_text(WorkflowState::Escalated),
                now,
            ) {
                Err(e) => (resolved, Err(storage::storage_message(e))),
                Ok(u) => (u, Ok(gate.work_item_id)),
            },
        },
    }
}

/// Whether the pending request at a position is the oldest whose work item is
/// gone.
pub open spec fn first_orphan(t: TablesView, i: int) -> bool {
    let pending = storage::pending_of(t, None);
    &&& 0 <= i < pending.len()
    &&& !storage::has_item(t, pending[i].work_item_id)
    &&& forall|j: int| 0 <= j < i ==> storage::has_item(t, (#[trigger] pending[j]).work_item_id)
}

impl Scheduler {
    /// Every pending gate request, oldest first, with the exact payload it
    /// implies. A request whose work item is gone is an error.
    pub fn gates(&self, storage: &Storage) -> (r: Result<GateList, String>)
        requires
            storage.wf(),
        ensures
            match r {
                Ok(list) => {
                    let pending = storage::pending_of(storage@.tables, None);
                    &&& list.gates@.len() == pending.len()
                    &&& forall|i: int|
                        0 <= i < pending.len() ==> {
                            let item = storage::item_of(storage@.tables, pending[i].work_item_id);
                            item is Some && is_gate_info(
                                #[trigger] list.gates@[i],
                                pending[i],
                                item->0.row,
                            )
                        }
                },
                Err(m) => exists|i: int|
                    #[trigger] first_orphan(storage@.tables, i) && m@ == storage::storage_message(
                        StorageErrorView::WorkItemNotFound(
                            storage::pending_of(storage@.tables, None)[i].work_item_id,
                        ),
                    ),
            },
    {
        let rows = match storage.pending_gate_requests(None) {
            Ok(rows) => rows,
            Err(e) => return Err(e.message()),
        };
        let ghost t = storage@.tables;
        let ghost pending = storage::pending_of(t, None);
        let mut gates: Vec<GateInfo> = Vec::new();
        let mut i: usize = 0;
        while i < rows.len()
            invariant
                i <= rows@.len(),
                storage.wf(),
                t == storage@.tables,
                pending == storage::gate_views(rows@),
                forall|k: int|
                    0 <= k < i ==> storage::has_item(t, (#[trigger] pending[k]).work_item_id),
                pending == storage::pending_of(t, None),
                gates@.len() == i,
                forall|k: int|
                    0 <= k < i ==> {
                        let item = storage::item_of(t, pending[k].work_item_id);
                        item is Some && is_gate_info(
                            #[trigger] gates@[k],
                            pending[k],
                            item->0.row,
                        )
                    },
            decreases rows@.len() - i,
        {
            let row = &rows[i];
            assert(pending[i as int] == row@);
            let item = match storage.get_work_item(row.work_item_id) {
                Ok(item) => item,
                Err(e) => {
                    assert(first_orphan(t, i as int));
                    return Err(e.message());
                },
            };
            gates.push(
                GateInfo {
                    id: row.id,
                    work_item_id: row.work_item_id,
                    ticket: item.ticket_key,
                    repo: item.repo,
                    action: row.action_kind.clone(),
                    created_at: row.created_at.clone(),
                    payload: row.payload.copy(),
                },
            );
            i = i + 1;
        }
        Ok(GateList { gates })
    }

    fn forge_for_repo(&self, repo_name: &str) -> (r: Result<String, String>)
        ensures
            text_result(r, forge_of(*self, repo_name@)),
    {
        let repo = match self.config.repos.get(repo_name) {
            Some(repo) => repo,
            None => return Err("repo '".to_owned().concat(repo_name).concat("' is not configured")),
        };
        match &repo.provider {
            None => Err(
                "repo '".to_owned().concat(repo_name).concat("' has no provider configured"),
            ),
            Some(provider) => if self.providers.contains_key(provider.as_str()) {
                Ok(provider.clone())
            } else {
                Err("provider '".to_owned().concat(provider.as_str()).concat("' is not usable"))
            },
        }
    }

    /// First step of an approval: records the human verdict and hands out the
    /// pull request to create.
    pub fn approve(&self, storage: &mut Storage, gate_id: i64, now: &str) -> (r: Result<
        Approved,
        String,
    >)
        requires
            old(storage).wf(),
        ensures
            final(storage).wf(),
            ({
                let (t, v) = approval(*self, old(storage)@.tables, gate_id as int, now@);
                &&& final(storage)@.tables == t
                &&& match (r, v) {
                    (Ok(a), Ok((id, provider, draft))) => a.gate_id == gate_id && a.work_item_id
                        == id && a.provider@ == provider && a.draft@ == draft,
                    (Err(a), Err(b)) => a@ == b,
                    _ => false,
                }
            }),
            storage::follows(old(storage)@, final(storage)@),
    {
        proof {
            storage::lemma_follows_same(storage@);
        }
        let gate = match storage.get_gate_request(gate_id) {
            Ok(gate) => gate,
            Err(e) => return Err(e.message()),
        };
        let action = match GatedAction::parse(gate.action_kind.as_str()) {
            Ok(action) => action,
            Err(_) => return Err(
                "gate ".to_owned().concat(i64_string(gate_id).as_str()).concat(
                    " has unknown action ",
                ).concat(debug_quoted(gate.action_kind.as_str()).as_str()),
            ),
        };
        if action != GatedAction::CreatePr {
            return Err(
                "no executor for gated action '".to_owned().concat(action.as_str()).concat("' yet"),
            );
        }
        let draft = match PrDraft::from_json(&gate.payload) {
            Ok(draft) => draft,
            Err(e) => return Err(
                "gate ".to_owned().concat(i64_string(gate_id).as_str()).concat(
                    " payload is not a PR draft: ",
                ).concat(e.as_str()),
            ),
        };
        let item = match storage.get_work_item(gate.work_item_id) {
            Ok(item) => item,
            Err(e) => return Err(e.message()),
        };
        let provider = match self.forge_for_repo(item.repo.as_str()) {
            Ok(provider) => provider,
            Err(m) => return Err(m),
        };
        let verdict = {
            let mut engine = GateEngine::new(storage);
            engine.approve_at(gate_id, "human", now)
        };
        match verdict {
            Ok(_) => {},
            Err(e) => return Err(e.message()),
        }
        Ok(Approved { gate_id, work_item_id: gate.work_item_id, provider, draft })
    }

    /// Last step of an approval: records the pull request. A creation that
    /// fails after the approval escalates.
    pub fn approve_done(
        &self,
        storage: &mut Storage,
        approved: &Approved,
        outcome: Outcome<PrRef, AdapterError>,
        now: &str,
    ) -> (r: Result<ApproveResult, String>)
        requires
            old(storage).wf(),
        ensures
            final(storage).wf(),
            ({
                let (t, v) = creation_settled(
                    old(storage)@.tables,
                    approved.work_item_id as int,
                    approved.draft.repo@,
                    outcome,
                    now@,
                );
                &&& final(storage)@.tables == t
                &&& match (r, v) {
                    (Ok(a), Ok(pr)) => a.gate_id == approved.gate_id && a.work_item_id
                        == approved.work_item_id && a.action@ == gate::action_text(
                        GatedAction::CreatePr,
                    ) && text::opt_text(a.pr) == Some(pr) && a.state@ == state::state_text(
                        WorkflowState::PrPending,
                    ),
                    (Err(a), Err(b)) => a@ == b,
                    _ => false,
                }
            }),
            storage::follows(old(storage)@, final(storage)@),
    {
        let ghost s0 = storage@;
        proof {
            storage::lemma_follows_same(s0);
        }
        let id: i64 = approved.work_item_id;
        let pr = match outcome {
            Outcome::Done(pr) => pr,
            Outcome::Lost(m) => {
                escalate(storage, id, "pr_create_failed", &error_object(m.as_str()), now);
                return Err(m);
            },
            Outcome::Failed(e) => {
                let msg = "creating PR for ".to_owned().concat(
                    approved.draft.repo.as_str(),
                ).concat(": ").concat(e.message().as_str());
                escalate(storage, id, "pr_create_failed", &error_object(msg.as_str()), now);
                return Err(msg);
            },
        };
        let pr_ref = pr.repo.concat("#").concat(u64_string(pr.number).as_str());
        match storage.set_work_item_field_at(id, ItemField::PrRef, pr_ref.as_str(), now) {
            Ok(_) => {},
            Err(e) => return Err(e.message()),
        }
        let ghost s1 = storage@;
        match storage.update_work_item_state_at(id, WorkflowState::PrPending.as_str(), now) {
            Ok(_) => {},
            Err(e) => return Err(e.message()),
        }
        proof {
            storage::lemma_follows_chain(s0, s1, storage@);
        }
        Ok(
            ApproveResult {
                gate_id: approved.gate_id,
                work_item_id: id,
                action: GatedAction::CreatePr.as_str().to_owned(),
                pr: Some(pr_ref),
                state: WorkflowState::PrPending.as_str().to_owned(),
            },
        )
    }

    /// Rejects a gate request and escalates its item.
    pub fn reject(
        &self,
        storage: &mut Storage,
        gate_id: i64,
        reason: Option<&str>,
        now: &str,
    ) -> (r: Result<RejectResult, String>)
        requires
            old(storage).wf(),
        ensures
            final(storage).wf(),
            ({
                let (t, v) = rejection(
                    old(storage)@.tables,
                    gate_id as int,
                    text::opt_str_text(reason),
                    now@,
                );
                &&& final(storage)@.tables == t
                &&& match (r, v) {
                    (Ok(a), Ok(id)) => a.gate_id == gate_id && a.work_item_id == id && a.state@
                        == state::state_text(WorkflowState::Escalated),
                    (Err(a), Err(b)) => a@ == b,
                    _ => false,
                }
            }),
            storage::follows(old(storage)@, final(storage)@),
    {
        let ghost s0 = storage@;
        proof {
            storage::lemma_follows_same(s0);
        }
        let gate = match storage.get_gate_request(gate_id) {
            Ok(gate) => gate,
            Err(e) => return Err(e.message()),
        };
        let why = match reason {
            Some(text) => text,
            None => "rejected",
        };
        let verdict = {
            let mut engine = GateEngine::new(storage);
            engine.reject_at(gate_id, "human", why, now)
        };
        match verdict {
            Ok(_) => {},
            Err(e) => return Err(e.message()),
        }
        let ghost s1 = storage@;
        match storage.update_work_item_state_at(
            gate.work_item_id,
            WorkflowState::Escalated.as_str(),
            now,
        ) {
            Ok(_) => {},
            Err(e) => return Err(e.message()),
        }
        proof {
            storage::lemma_follows_chain(s0, s1, storage@);
        }
        Ok(
            RejectResult {
                gate_id,
                work_item_id: gate.work_item_id,
                state: WorkflowState::Escalated.as_str().to_owned(),
            },
        )
    }
}

/// A pull request is handed out only when its gate request was pending and the
/// human verdict is on record, and then it is exactly the draft that the
/// request carries.
pub proof fn lemma_nothing_public_without_approval(
    s: Scheduler,
    t: TablesView,
    gate_id: int,
    now: Seq<char>,
)
    requires
        storage::tables_ok(t),
        approval(s, t, gate_id, now).1 is Ok,
    ensures
        ({
            let (u, v) = approval(s, t, gate_id, now);
            let (id, provider, draft) = v->Ok_0;
            &&& storage::gate_of(t, gate_id) matches Some(before) && before.status == "pending"@
                && before.work_item_id == id && adapters::draft_of(before.payload) == Ok::<
                PrDraftView,
                Seq<char>,
            >(draft)
            &&& storage::gate_of(u, gate_id) matches Some(after) && after.status == "approved"@
                && after.resolved_by == Some("human"@)
            &&& u.events.last().kind == "gate_"@ + "approved"@
            &&& u.events.last().actor == "human"@
        }),
{
    let (u, v) = approval(s, t, gate_id, now);
    storage::lemma_resolution_is_recorded(t, u, gate_id, "approved"@, "human"@, None, now);
}

/// A gate request leads to at most one pull request: once it was approved,
/// approving it again hands out nothing.
pub proof fn lemma_approved_once(
    s: Scheduler,
    t: TablesView,
    gate_id: int,
    now: Seq<char>,
    later: Seq<char>,
)
    requires
        storage::tables_ok(t),
        approval(s, t, gate_id, now).1 is Ok,
    ensures
        ({
            let u = approval(s, t, gate_id, now).0;
            approval(s, u, gate_id, later).1 is Err && approval(s, u, gate_id, later).0 == u
        }),
{
    let u = approval(s, t, gate_id, now).0;
    gate::lemma_one_verdict(t, u, gate_id, "human"@, Seq::empty(), now, later);
}

/// A rejected gate request never leads to a pull request.
pub proof fn lemma_rejected_never_executes(
    s: Scheduler,
    t: TablesView,
    gate_id: int,
    reason: Option<Seq<char>>,
    now: Seq<char>,
    later: Seq<char>,
)
    requires
        storage::tables_ok(t),
        rejection(t, gate_id, reason, now).1 is Ok,
    ensures
        approval(s, rejection(t, gate_id, reason, now).0, gate_id, later).1 is Err,
{
    let gate = storage::gate_of(t, gate_id)->0;
    let why = or_text(reason, "rejected"@);
    let resolved = gate::rejected(t, gate_id, "human"@, why, now)->Ok_0;
    let u = rejection(t, gate_id, reason, now).0;
    gate::lemma_one_verdict(t, resolved, gate_id, "human"@, why, now, later);
    storage::lemma_resolution_is_recorded(
        t,
        resolved,
        gate_id,
        "rejected"@,
        "human"@,
        Some(why),
        now,
    );
    storage::lemma_state_change_is_local(
        resolved,
        u,
        gate.work_item_id,
        state::state_text(WorkflowState::Escalated),
        now,
        gate.work_item_id,
    );
    storage::lemma_gate_lookup(resolved, u, gate_id);
    reveal_strlit("rejected");
    reveal_strlit("pending");
    assert("rejected"@.len() != "pending"@.len());
}

/// A rejected gate request parks its item.
pub proof fn lemma_rejected_item_is_escalated(
    t: TablesView,
    gate_id: int,
    reason: Option<Seq<char>>,
    now: Seq<char>,
)
    requires
        storage::tables_ok(t),
        rejection(t, gate_id, reason, now).1 is Ok,
    ensures
        ({
            let (u, v) = rejection(t, gate_id, reason, now);
            &&& storage::item_of(u, v->Ok_0) matches Some(item) && item.row.state
                == state::state_text(WorkflowState::Escalated)
            &&& storage::gate_of(t, gate_id) matches Some(g) && g.work_item_id == v->Ok_0
        }),
{
    let why = or_text(reason, "rejected"@);
    let gate = storage::gate_of(t, gate_id)->0;
    let resolved = gate::rejected(t, gate_id, "human"@, why, now)->Ok_0;
    storage::lemma_resolution_is_recorded(
        t,
        resolved,
        gate_id,
        "rejected"@,
        "human"@,
        Some(why),
        now,
    );
    let u = rejection(t, gate_id, reason, now).0;
    storage::lemma_state_change_is_local(
        resolved,
        u,
        gate.work_item_id,
        state::state_text(WorkflowState::Escalated),
        now,
        gate.work_item_id,
    );
}

/// A pull request that was created is on record, and its item waits for it.
pub proof fn lemma_created_pr_is_pending(t: TablesView, id: int, pr: PrRef, now: Seq<char>)
    requires
        storage::tables_ok(t),
        storage::has_item(t, id),
        storage::next_event_id(t) <= i64::MAX,
    ensures
        ({
            let (u, v) = creation_settled(t, id, pr@.repo, Outcome::Done(pr), now);
            &&& v == Ok::<Seq<char>, Seq<char>>(pr_text(pr@))
            &&& storage::item_of(u, id) matches Some(item) && item.row.pr_ref == Some(pr_text(pr@))
                && item.row.state == state::state_text(WorkflowState::PrPending)
        }),
{
    let text = pr_text(pr@);
    let set = storage::field_set(t, id, ItemField::PrRef, text, now)->Ok_0;
    storage::lemma_field_set_is_local(t, set, id, ItemField::PrRef, text, now, id);
    let pending = state::state_text(WorkflowState::PrPending);
    storage::lemma_state_update_succeeds(set, id, pending, now);
    let u = storage::state_updated(set, id, pending, now)->Ok_0;
    storage::lemma_state_change_is_local(set, u, id, pending, now, id);
}

// ---------------------------------------------------------------------------
// Logs

/// Whose transcript to read: which session, of which backend.
pub open spec fn log_query(s: Scheduler, t: TablesView, item_id: int) -> Result<
    (Seq<char>, Seq<char>),
    Seq<char>,
> {
    match storage::item_of(t, item_id) {
        None => Err(storage::storage_message(StorageErrorView::WorkItemNotFound(item_id))),
        Some(item) => match item.agent_session {
            None => Err("work item "@ + text::int_text(item_id) + " has no agent session"@),
            Some(session) => {
                let backend = match table::lookup(s.config.repos@, item.row.repo) {
                    Some(repo) => config::agent_name_of(repo),
                    None => "omp"@,
                };
                if table::lookup(s.runners@, backend) is Some {
                    Ok((session, backend))
                } else {
                    Err("agent backend '"@ + backend + "' is not configured"@)
                }
            },
        },
    }
}

impl Scheduler {
    /// First step of reading a transcript.
    pub fn logs(&self, storage: &Storage, item_id: i64) -> (r: Result<StatusQuery, String>)
        requires
            storage.wf(),
        ensures
            match (r, log_query(*self, storage@.tables, item_id as int)) {
                (Ok(q), Ok((session, backend))) => q.session@ == session && q.backend@ == backend,
                (Err(a), Err(b)) => a@ == b,
                _ => false,
            },
    {
        let item = match storage.get_work_item(item_id) {
            Ok(item) => item,
            Err(e) => return Err(e.message()),
        };
        let session = match storage.work_item_agent_session(item_id) {
            Ok(Some(session)) => session,
            Ok(None) => return Err(
                "work item ".to_owned().concat(i64_string(item_id).as_str()).concat(
                    " has no agent session",
                ),
            ),
            Err(e) => return Err(e.message()),
        };
        let backend = match self.config.repos.get(item.repo.as_str()) {
            Some(repo) => repo.agent_name(),
            None => "omp",
        };
        if !self.runners.contains_key(backend) {
            return Err(
                "agent backend '".to_owned().concat(backend).concat("' is not configured"),
            );
        }
        Ok(StatusQuery { session, backend: backend.to_owned() })
    }
}

/// Last step of reading a transcript: its last lines, none where there is no
/// transcript.
pub fn logs_done(transcript: Option<(String, Result<String, String>)>, tail: usize) -> (r: Result<
    LogsResult,
    String,
>)
    ensures
        match transcript {
            None => r matches Ok(l) && l.transcript_path is None && l.lines@.len() == 0,
            Some((path, Ok(content))) => r matches Ok(l) && text::opt_text(l.transcript_path)
                == Some(path@) && text::texts(l.lines@) == last_of(
                text::line_texts(content@),
                tail as nat,
            ),
            Some((path, Err(e))) => r matches Err(m) && m@ == "reading transcript "@ + path@ + ": "@
                + e@,
        },
{
    match transcript {
        None => Ok(LogsResult { transcript_path: None, lines: Vec::new() }),
        Some((path, Ok(content))) => Ok(
            LogsResult {
                transcript_path: Some(path),
                lines: tail_lines(content.as_str(), tail),
            },
        ),
        Some((path, Err(e))) => Err(
            "reading transcript ".to_owned().concat(path.as_str()).concat(": ").concat(e.as_str()),
        ),
    }
}

} // verus!
