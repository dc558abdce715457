//! Central configuration: schema, validation, and the templating and slug
//! helpers that branch names are derived with.
//!
//! Sections: `[profile]`, `[providers.<name>]`, `[agents.<name>]`,
//! `[repos.<name>]`, `[budgets]`.
//!
//! An agent backend is a pair of argument templates; `{placeholders}` in them
//! are substituted per session. The name `omp` has a built-in default.

use crate::paths;
use crate::paths::{expand_tilde, file_name, with_file_name};
use crate::table;
use crate::table::Table;
use crate::text;
use crate::text::{
    chars_of, copy_opt, copy_strings, find_from, string_between, text_eq, to_ascii_lower,
};
use vstd::prelude::*;
use vstd::string::*;

verus! {

/// Default API base URL of `github` providers that name none.
pub const DEFAULT_GITHUB_API_URL: &'static str = "https://api.github.com";

/// Provider kinds that can be configured.
pub const KNOWN_PROVIDER_KINDS: [&'static str; 3] = ["jira", "github", "local"];

/// Placeholders allowed in a branch template.
pub const BRANCH_TEMPLATE_VARS: [&'static str; 3] = ["type", "ticket", "slug"];

pub open spec fn is_known_kind(kind: Seq<char>) -> bool {
    kind == "jira"@ || kind == "github"@ || kind == "local"@
}

pub open spec fn is_branch_var(var: Seq<char>) -> bool {
    var == "type"@ || var == "ticket"@ || var == "slug"@
}

fn known_kind(kind: &str) -> (r: bool)
    ensures
        r == is_known_kind(kind@),
{
    let kinds = KNOWN_PROVIDER_KINDS;
    text_eq(kind, kinds[0]) || text_eq(kind, kinds[1]) || text_eq(kind, kinds[2])
}

fn branch_var(var: &str) -> (r: bool)
    ensures
        r == is_branch_var(var@),
{
    let vars = BRANCH_TEMPLATE_VARS;
    text_eq(var, vars[0]) || text_eq(var, vars[1]) || text_eq(var, vars[2])
}

// ---------------------------------------------------------------------------
// Errors

#[derive(Debug, PartialEq, Eq)]
pub enum ConfigError {
    Io { path: String, source: String },
    Parse { path: String, source: String },
    Validation { msg: String },
}

#[verifier::ext_equal]
pub enum ConfigErrorView {
    Io { path: Seq<char>, source: Seq<char> },
    Parse { path: Seq<char>, source: Seq<char> },
    Validation { msg: Seq<char> },
}

impl View for ConfigError {
    type V = ConfigErrorView;

    open spec fn view(&self) -> ConfigErrorView {
        match *self {
            ConfigError::Io { path, source } => ConfigErrorView::Io {
                path: path@,
                source: source@,
            },
            ConfigError::Parse { path, source } => ConfigErrorView::Parse {
                path: path@,
                source: source@,
            },
            ConfigError::Validation { msg } => ConfigErrorView::Validation { msg: msg@ },
        }
    }
}

/// The message shown for an error.
pub open spec fn config_message(e: ConfigErrorView) -> Seq<char> {
    match e {
        ConfigErrorView::Io { path, source } => "failed to read config file "@ + path,
        ConfigErrorView::Parse { path, source } => "failed to parse "@ + path + ": "@ + source,
        ConfigErrorView::Validation { msg } => "invalid config: "@ + msg,
    }
}

impl ConfigError {
    pub fn message(&self) -> (r: String)
        ensures
            r@ == config_message(self@),
    {
        match self {
            ConfigError::Io { path, .. } => "failed to read config file ".to_owned().concat(
                path.as_str(),
            ),
            ConfigError::Parse { path, source } => "failed to parse ".to_owned().concat(
                path.as_str(),
            ).concat(": ").concat(source.as_str()),
            ConfigError::Validation { msg } => "invalid config: ".to_owned().concat(msg.as_str()),
        }
    }
}

// ---------------------------------------------------------------------------
// Schema

#[derive(Debug, PartialEq)]
pub struct Config {
    pub profile: Profile,
    pub providers: Table<Provider>,
    pub agents: Table<Agent>,
    pub repos: Table<Repo>,
    pub budgets: Budgets,
}

impl Clone for Config {
    fn clone(&self) -> (r: Config)
        ensures
            r.profile == self.profile,
            r.budgets == self.budgets,
            r.providers@ == self.providers@,
            r.agents@.len() == self.agents@.len(),
            forall|i: int|
                0 <= i < self.agents@.len() ==> (#[trigger] r.agents@[i]).0 == self.agents@[i].0
                    && r.agents@[i].1@ == self.agents@[i].1@,
            r.repos@.len() == self.repos@.len(),
            forall|i: int|
                0 <= i < self.repos@.len() ==> (#[trigger] r.repos@[i]).0 == self.repos@[i].0
                    && same_repo(r.repos@[i].1, self.repos@[i].1),
    {
        let r = Config {
            profile: self.profile,
            providers: self.providers.clone(),
            agents: self.agents.clone(),
            repos: self.repos.clone(),
            budgets: self.budgets,
        };
        assert(r.providers@ =~= self.providers@);
        r
    }
}

#[derive(Debug, Clone, Copy, PartialEq, Eq, Structural)]
pub struct Profile {
    /// Gates of public actions can never be auto-approved.
    pub lock_public_gate: bool,
}

#[derive(Debug, PartialEq)]
pub struct Provider {
    /// `jira`, `github` or `local`.
    pub kind: String,
    pub url: Option<String>,
    pub user: Option<String>,
}

impl Clone for Provider {
    fn clone(&self) -> (r: Provider)
        ensures
            r == *self,
    {
        Provider {
            kind: self.kind.clone(),
            url: copy_opt(&self.url),
            user: copy_opt(&self.user),
        }
    }
}

/// One agent backend: argument templates handed to the process runner.
#[derive(Debug, PartialEq)]
pub struct Agent {
    /// Arguments that start a session; never empty.
    pub start_cmd: Vec<String>,
    /// Arguments that resume a session; absent when the backend cannot.
    pub resume_cmd: Option<Vec<String>>,
}

#[derive(Debug, PartialEq)]
pub struct Repo {
    /// Clone location; a leading `~` is expanded at load time.
    pub path: String,
    pub forge: String,
    pub base: String,
    pub branch_template: String,
    pub check_command: Vec<String>,
    pub rebase: bool,
    pub ci_retry_cap: u32,
    pub merge_policy: MergePolicy,
    /// Name of the provider that owns the repository's tickets and forge.
    pub provider: Option<String>,
    /// `owner/name` on the forge; target of pull requests.
    pub remote_repo: Option<String>,
    /// Name of the agent backend; `omp` when absent.
    pub agent: Option<String>,
    /// Directory of worktrees; a sibling of `path` when absent.
    pub worktrees_root: Option<String>,
    /// Command run inside a fresh worktree; none when empty.
    pub setup_hook: Vec<String>,
    /// Command run before a worktree is removed; none when empty.
    pub teardown_hook: Vec<String>,
}

/// Whether two entries say the same.
pub open spec fn same_repo(a: Repo, b: Repo) -> bool {
    &&& a.path@ == b.path@
    &&& a.forge@ == b.forge@
    &&& a.base@ == b.base@
    &&& a.branch_template@ == b.branch_template@
    &&& a.check_command@ == b.check_command@
    &&& a.rebase == b.rebase
    &&& a.ci_retry_cap == b.ci_retry_cap
    &&& a.merge_policy == b.merge_policy
    &&& a.provider == b.provider
    &&& a.remote_repo == b.remote_repo
    &&& a.agent == b.agent
    &&& a.worktrees_root == b.worktrees_root
    &&& a.setup_hook@ == b.setup_hook@
    &&& a.teardown_hook@ == b.teardown_hook@
}

impl Clone for Repo {
    fn clone(&self) -> (r: Repo)
        ensures
            same_repo(r, *self),
    {
        Repo {
            path: self.path.clone(),
            forge: self.forge.clone(),
            base: self.base.clone(),
            branch_template: self.branch_template.clone(),
            check_command: copy_strings(&self.check_command),
            rebase: self.rebase,
            ci_retry_cap: self.ci_retry_cap,
            merge_policy: self.merge_policy.clone(),
            provider: copy_opt(&self.provider),
            remote_repo: copy_opt(&self.remote_repo),
            agent: copy_opt(&self.agent),
            worktrees_root: copy_opt(&self.worktrees_root),
            setup_hook: copy_strings(&self.setup_hook),
            teardown_hook: copy_strings(&self.teardown_hook),
        }
    }
}

#[derive(Debug, PartialEq)]
pub struct MergePolicy {
    pub ci: String,
    pub approvals: u32,
    pub no_changes_requested: bool,
}

impl Clone for MergePolicy {
    fn clone(&self) -> (r: MergePolicy)
        ensures
            r == *self,
    {
        MergePolicy {
            ci: self.ci.clone(),
            approvals: self.approvals,
            no_changes_requested: self.no_changes_requested,
        }
    }
}

#[derive(Debug, Clone, Copy, PartialEq, Eq, Structural)]
pub struct Budgets {
    /// 0 means unlimited.
    pub default_tokens_per_item: u64,
}

impl Default for Profile {
    fn default() -> (r: Profile)
        ensures
            r.lock_public_gate,
    {
        Profile { lock_public_gate: true }
    }
}

impl Default for Budgets {
    fn default() -> (r: Budgets)
        ensures
            r.default_tokens_per_item == 0,
    {
        Budgets { default_tokens_per_item: 0 }
    }
}

impl Default for MergePolicy {
    fn default() -> (r: MergePolicy)
        ensures
            r.ci@ == "green"@,
            r.approvals == 1,
            r.no_changes_requested,
    {
        MergePolicy { ci: "green".to_owned(), approvals: 1, no_changes_requested: true }
    }
}

impl Default for Config {
    fn default() -> (r: Config)
        ensures
            r.profile.lock_public_gate,
            r.providers@.len() == 0,
            r.agents@.len() == 0,
            r.repos@.len() == 0,
            r.budgets.default_tokens_per_item == 0,
    {
        Config {
            profile: Profile { lock_public_gate: true },
            providers: Table::new(),
            agents: Table::new(),
            repos: Table::new(),
            budgets: Budgets { default_tokens_per_item: 0 },
        }
    }
}

pub fn default_base() -> (r: String)
    ensures
        r@ == "main"@,
{
    "main".to_owned()
}

pub fn default_branch_template() -> (r: String)
    ensures
        r@ == "{type}/{ticket}-{slug}"@,
{
    "{type}/{ticket}-{slug}".to_owned()
}

pub fn default_true() -> (r: bool)
    ensures
        r,
{
    true
}

pub fn default_ci_retry_cap() -> (r: u32)
    ensures
        r == 3,
{
    3
}

// ---------------------------------------------------------------------------
// Entries

/// The API base URL of a provider.
pub open spec fn url_of(p: Provider) -> Seq<char> {
    match p.url {
        Some(u) => u@,
        None => DEFAULT_GITHUB_API_URL@,
    }
}

impl Provider {
    /// The configured URL, the public GitHub API when none is.
    pub fn api_url(&self) -> (r: String)
        ensures
            r@ == url_of(*self),
    {
        match &self.url {
            Some(u) => u.clone(),
            None => DEFAULT_GITHUB_API_URL.to_owned(),
        }
    }
}

#[verifier::ext_equal]
pub struct AgentView {
    pub start_cmd: Seq<Seq<char>>,
    pub resume_cmd: Option<Seq<Seq<char>>>,
}

impl View for Agent {
    type V = AgentView;

    open spec fn view(&self) -> AgentView {
        AgentView {
            start_cmd: text::texts(self.start_cmd@),
            resume_cmd: match self.resume_cmd {
                Some(v) => Some(text::texts(v@)),
                None => None,
            },
        }
    }
}

impl Clone for Agent {
    fn clone(&self) -> (r: Agent)
        ensures
            r@ == self@,
    {
        Agent {
            start_cmd: copy_strings(&self.start_cmd),
            resume_cmd: match &self.resume_cmd {
                Some(v) => Some(copy_strings(v)),
                None => None,
            },
        }
    }
}

/// The built-in `omp` backend.
pub open spec fn builtin_omp() -> AgentView {
    AgentView {
        start_cmd: seq![
            "omp"@,
            "-p"@,
            "@{instructions_file}"@,
            "--cwd"@,
            "{worktree}"@,
            "--session-dir"@,
            "{session_dir}"@,
        ],
        resume_cmd: Some(
            seq![
                "omp"@,
                "-p"@,
                "@{message_file}"@,
                "--cwd"@,
                "{worktree}"@,
                "--session-dir"@,
                "{session_dir}"@,
                "-c"@,
            ],
        ),
    }
}

pub fn builtin_omp_agent() -> (r: Agent)
    ensures
        r@ == builtin_omp(),
{
    let start_cmd = vec![
        "omp".to_owned(),
        "-p".to_owned(),
        "@{instructions_file}".to_owned(),
        "--cwd".to_owned(),
        "{worktree}".to_owned(),
        "--session-dir".to_owned(),
        "{session_dir}".to_owned(),
    ];
    let resume_cmd = vec![
        "omp".to_owned(),
        "-p".to_owned(),
        "@{message_file}".to_owned(),
        "--cwd".to_owned(),
        "{worktree}".to_owned(),
        "--session-dir".to_owned(),
        "{session_dir}".to_owned(),
        "-c".to_owned(),
    ];
    assert(text::texts(start_cmd@) == builtin_omp().start_cmd);
    assert(text::texts(resume_cmd@) == builtin_omp().resume_cmd->0);
    Agent { start_cmd, resume_cmd: Some(resume_cmd) }
}

/// The agent backend of a repository.
pub open spec fn agent_name_of(repo: Repo) -> Seq<char> {
    match repo.agent {
        Some(a) => a@,
        None => "omp"@,
    }
}

/// The directory of a repository's worktrees.
pub open spec fn worktrees_root_of(repo: Repo) -> Seq<char> {
    match repo.worktrees_root {
        Some(root) => root@,
        None => {
            let name = match paths::file_name_of(repo.path@) {
                Some(n) => n,
                None => "repo"@,
            };
            paths::renamed(repo.path@, name + "-worktrees"@)
        },
    }
}

impl Repo {
    /// A repository with every optional setting at its default.
    pub fn new(path: &str, forge: &str) -> (r: Repo)
        ensures
            r.path@ == path@,
            r.forge@ == forge@,
            r.base@ == "main"@,
            r.branch_template@ == "{type}/{ticket}-{slug}"@,
            r.check_command@.len() == 0,
            r.rebase,
            r.ci_retry_cap == 3,
            r.merge_policy.ci@ == "green"@,
            r.merge_policy.approvals == 1,
            r.merge_policy.no_changes_requested,
            r.provider is None,
            r.remote_repo is None,
            r.agent is None,
            r.worktrees_root is None,
            r.setup_hook@.len() == 0,
            r.teardown_hook@.len() == 0,
    {
        Repo {
            path: path.to_owned(),
            forge: forge.to_owned(),
            base: default_base(),
            branch_template: default_branch_template(),
            check_command: Vec::new(),
            rebase: default_true(),
            ci_retry_cap: default_ci_retry_cap(),
            merge_policy: MergePolicy::default(),
            provider: None,
            remote_repo: None,
            agent: None,
            worktrees_root: None,
            setup_hook: Vec::new(),
            teardown_hook: Vec::new(),
        }
    }

    /// The configured worktrees root, else a sibling directory
    /// `<repo_dir>-worktrees` next to the clone.
    pub fn worktrees_root(&self) -> (r: String)
        ensures
            r@ == worktrees_root_of(*self),
    {
        match &self.worktrees_root {
            Some(root) => root.clone(),
            None => {
                let name = match file_name(self.path.as_str()) {
                    Some(n) => n,
                    None => "repo".to_owned(),
                };
                with_file_name(self.path.as_str(), name.concat("-worktrees").as_str())
            },
        }
    }

    /// The agent backend that drives this repository's work items.
    pub fn agent_name(&self) -> (r: &str)
        ensures
            r@ == agent_name_of(*self),
    {
        match &self.agent {
            Some(a) => a.as_str(),
            None => "omp",
        }
    }
}

/// The agent backend that a name stands for.
pub open spec fn agent_of(c: Config, name: Seq<char>) -> Option<AgentView> {
    match table::lookup(c.agents@, name) {
        Some(a) => Some(a@),
        None => if name == "omp"@ {
            Some(builtin_omp())
        } else {
            None
        },
    }
}

impl Config {
    /// The agent backend of a name; `omp` falls back to the built-in one.
    pub fn agent(&self, name: &str) -> (r: Option<Agent>)
        ensures
            match (r, agent_of(*self, name@)) {
                (Some(a), Some(v)) => a@ == v,
                (None, None) => true,
                _ => false,
            },
    {
        match self.agents.get(name) {
            Some(a) => Some(a.clone()),
            None => if text_eq(name, "omp") {
                Some(builtin_omp_agent())
            } else {
                None
            },
        }
    }
}

// ---------------------------------------------------------------------------
// Templates

/// A piece of a template: literal text or a placeholder's name.
#[derive(Debug, PartialEq, Eq)]
pub enum Segment {
    Lit(String),
    Var(String),
}

#[verifier::ext_equal]
pub enum SegmentView {
    Lit(Seq<char>),
    Var(Seq<char>),
}

impl View for Segment {
    type V = SegmentView;

    open spec fn view(&self) -> SegmentView {
        match *self {
            Segment::Lit(s) => SegmentView::Lit(s@),
            Segment::Var(s) => SegmentView::Var(s@),
        }
    }
}

pub open spec fn segment_views(v: Seq<Segment>) -> Seq<SegmentView> {
    Seq::new(v.len(), |i: int| v[i]@)
}

/// A `{name}` template as literal and placeholder pieces, `None` when a `{` is
/// never closed. A bare `}` is literal text.
pub open spec fn segments_of(tpl: Seq<char>) -> Option<Seq<SegmentView>>
    decreases tpl.len(),
{
    let open = text::first_at(tpl, '{') as int;
    if open >= tpl.len() {
        if tpl.len() == 0 {
            Some(Seq::empty())
        } else {
            Some(seq![SegmentView::Lit(tpl)])
        }
    } else {
        let after = tpl.skip(open + 1);
        let close = text::first_at(after, '}') as int;
        if close >= after.len() {
            None
        } else {
            let head = if open > 0 {
                seq![SegmentView::Lit(tpl.take(open)), SegmentView::Var(after.take(close))]
            } else {
                seq![SegmentView::Var(after.take(close))]
            };
            match segments_of(after.skip(close + 1)) {
                Some(tail) => Some(head + tail),
                None => None,
            }
        }
    }
}

pub open spec fn unclosed_message(tpl: Seq<char>) -> Seq<char> {
    "unclosed '{' in template \""@ + tpl + "\""@
}

/// Splits a `{name}` template into its pieces.
pub fn segments(tpl: &str) -> (r: Result<Vec<Segment>, ConfigError>)
    ensures
        match (r, segments_of(tpl@)) {
            (Ok(v), Some(s)) => segment_views(v@) == s,
            (Err(e), None) => e@ == (ConfigErrorView::Validation { msg: unclosed_message(tpl@) }),
            _ => false,
        },
{
    let chars = chars_of(tpl);
    let n: usize = chars.len();
    let mut out: Vec<Segment> = Vec::new();
    let mut at: usize = 0;
    assert(tpl@.skip(0) == tpl@);
    assert(segment_views(out@) == Seq::<SegmentView>::empty());
    assert(segments_of(tpl@) matches Some(s) ==> Seq::<SegmentView>::empty() + s == s);
    loop
        invariant_except_break
            at <= n,
            n == chars@.len(),
            chars@ == tpl@,
            match segments_of(tpl@.skip(at as int)) {
                Some(s) => segments_of(tpl@) == Some(segment_views(out@) + s),
                None => segments_of(tpl@) is None,
            },
        ensures
            segments_of(tpl@) == Some(segment_views(out@)),
        decreases n - at,
    {
        let ghost rest = tpl@.skip(at as int);
        let ghost done = segment_views(out@);
        let open = find_from(&chars, at, '{');
        if open >= n {
            if at < n {
                let lit = string_between(&chars, at, n);
                assert(lit@ == rest);
                out.push(Segment::Lit(lit));
                assert(segment_views(out@) == done + seq![SegmentView::Lit(rest)]);
            } else {
                assert(segment_views(out@) == done + Seq::<SegmentView>::empty());
            }
            break;
        }
        let ghost after = rest.skip(open - at + 1);
        assert(after == tpl@.skip(open + 1));
        let close = find_from(&chars, open + 1, '}');
        if close >= n {
            return Err(
                ConfigError::Validation {
                    msg: "unclosed '{' in template \"".to_owned().concat(tpl).concat("\""),
                },
            );
        }
        let ghost tail = segments_of(tpl@.skip(close + 1));
        assert(after.skip(close - open - 1 + 1) == tpl@.skip(close + 1));
        let ghost var_text = after.take(close - open - 1);
        if open > at {
            let lit = string_between(&chars, at, open);
            assert(lit@ == rest.take(open - at));
            out.push(Segment::Lit(lit));
            assert(segment_views(out@) == done.push(SegmentView::Lit(rest.take(open - at))));
        }
        let ghost middle = segment_views(out@);
        let var = string_between(&chars, open + 1, close);
        assert(var@ == var_text);
        out.push(Segment::Var(var));
        assert(segment_views(out@) == middle.push(SegmentView::Var(var_text)));
        proof {
            let head = if open > at {
                seq![SegmentView::Lit(rest.take(open - at)), SegmentView::Var(var_text)]
            } else {
                seq![SegmentView::Var(var_text)]
            };
            assert(segment_views(out@) == done + head);
            if tail is Some {
                assert(done + (head + tail->0) == (done + head) + tail->0);
            }
        }
        at = close + 1;
    }
    Ok(out)
}

pub open spec fn unknown_placeholder_message(var: Seq<char>, tpl: Seq<char>) -> Seq<char> {
    "unknown placeholder {"@ + var + "} in template \""@ + tpl + "\""@
}

/// The text of a template's pieces, or the first placeholder without a value.
pub open spec fn filled(
    segs: Seq<SegmentView>,
    vars: Seq<(Seq<char>, String)>,
) -> Result<Seq<char>, Seq<char>>
    decreases segs.len(),
{
    if segs.len() == 0 {
        Ok(Seq::empty())
    } else {
        match filled(segs.drop_last(), vars) {
            Err(var) => Err(var),
            Ok(done) => match segs.last() {
                SegmentView::Lit(lit) => Ok(done + lit),
                SegmentView::Var(var) => match table::lookup(vars, var) {
                    Some(value) => Ok(done + value@),
                    None => Err(var),
                },
            },
        }
    }
}

/// A template with its placeholders replaced, or why that cannot be done.
pub open spec fn rendered(
    tpl: Seq<char>,
    vars: Seq<(Seq<char>, String)>,
) -> Result<Seq<char>, Seq<char>> {
    match segments_of(tpl) {
        None => Err(unclosed_message(tpl)),
        Some(segs) => match filled(segs, vars) {
            Ok(s) => Ok(s),
            Err(var) => Err(unknown_placeholder_message(var, tpl)),
        },
    }
}

proof fn lemma_filled_fails(segs: Seq<SegmentView>, vars: Seq<(Seq<char>, String)>, i: int)
    requires
        0 <= i <= segs.len(),
        filled(segs.take(i), vars) is Err,
    ensures
        filled(segs, vars) == filled(segs.take(i), vars),
    decreases segs.len() - i,
{
    if i < segs.len() {
        assert(segs.take(i + 1).drop_last() == segs.take(i));
        lemma_filled_fails(segs, vars, i + 1);
    } else {
        assert(segs.take(i) == segs);
    }
}

/// Renders a `{name}` template. A placeholder without a value is an error.
pub fn render_template(tpl: &str, vars: &Table<String>) -> (r: Result<String, ConfigError>)
    ensures
        match (r, rendered(tpl@, vars@)) {
            (Ok(s), Ok(t)) => s@ == t,
            (Err(e), Err(msg)) => e@ == (ConfigErrorView::Validation { msg }),
            _ => false,
        },
{
    let pieces = match segments(tpl) {
        Ok(pieces) => pieces,
        Err(e) => return Err(e),
    };
    let ghost segs = segment_views(pieces@);
    let mut out = String::new();
    let mut i: usize = 0;
    assert(segs.take(0) == Seq::<SegmentView>::empty());
    while i < pieces.len()
        invariant
            i <= pieces@.len(),
            segs == segment_views(pieces@),
            segments_of(tpl@) == Some(segs),
            filled(segs.take(i as int), vars@) == Ok::<Seq<char>, Seq<char>>(out@),
        decreases pieces@.len() - i,
    {
        assert(segs.take(i + 1).drop_last() == segs.take(i as int));
        assert(segs.take(i + 1).last() == pieces@[i as int]@);
        match &pieces[i] {
            Segment::Lit(lit) => {
                out.append(lit.as_str());
            },
            Segment::Var(var) => match vars.get(var.as_str()) {
                Some(value) => {
                    out.append(value.as_str());
                },
                None => {
                    proof {
                        lemma_filled_fails(segs, vars@, i + 1);
                    }
                    return Err(
                        ConfigError::Validation {
                            msg: "unknown placeholder {".to_owned().concat(var.as_str()).concat(
                                "} in template \"",
                            ).concat(tpl).concat("\""),
                        },
                    );
                },
            },
        }
        i = i + 1;
    }
    assert(segs.take(i as int) == segs);
    Ok(out)
}

/// A template without placeholders renders to itself.
pub proof fn lemma_plain_template(tpl: Seq<char>, vars: Seq<(Seq<char>, String)>)
    requires
        !tpl.contains('{'),
    ensures
        rendered(tpl, vars) == Ok::<Seq<char>, Seq<char>>(tpl),
{
    text::lemma_first_at_is(tpl, '{');
    if text::first_at(tpl, '{') < tpl.len() {
        assert(tpl[text::first_at(tpl, '{') as int] == '{');
    }
    if tpl.len() > 0 {
        let segs = seq![SegmentView::Lit(tpl)];
        assert(segs.drop_last() == Seq::<SegmentView>::empty());
        assert(filled(segs.drop_last(), vars) == Ok::<Seq<char>, Seq<char>>(Seq::empty()));
        assert(Seq::<char>::empty() + tpl == tpl);
    } else {
        assert(tpl == Seq::<char>::empty());
    }
}

// ---------------------------------------------------------------------------
// Validation

/// What is wrong with a provider entry.
pub open spec fn provider_error(name: Seq<char>, p: Provider) -> Option<Seq<char>> {
    if is_known_kind(p.kind@) {
        None
    } else {
        Some(
            "provider '"@ + name + "': unknown kind \""@ + p.kind@
                + "\" (known: jira, github, local)"@,
        )
    }
}

/// What is wrong with an agent entry.
pub open spec fn agent_error(name: Seq<char>, a: Agent) -> Option<Seq<char>> {
    if a.start_cmd@.len() > 0 {
        None
    } else {
        Some("agent '"@ + name + "': start_cmd must not be empty"@)
    }
}

/// The first placeholder that a branch template must not use.
pub open spec fn bad_var(segs: Seq<SegmentView>) -> Option<Seq<char>>
    decreases segs.len(),
{
    if segs.len() == 0 {
        None
    } else {
        match segs[0] {
            SegmentView::Var(var) if !is_branch_var(var) => Some(var),
            _ => bad_var(segs.skip(1)),
        }
    }
}

/// What is wrong with a repository entry: its branch template, its provider or
/// its agent.
pub open spec fn repo_error(c: Config, name: Seq<char>, repo: Repo) -> Option<Seq<char>> {
    match segments_of(repo.branch_template@) {
        None => Some(unclosed_message(repo.branch_template@)),
        Some(segs) => match bad_var(segs) {
            Some(var) => Some(
                "repo '"@ + name + "': branch_template placeholder {"@ + var
                    + "} is not one of {type}, {ticket}, {slug}"@,
            ),
            None => if repo.provider is Some && table::lookup(
                c.providers@,
                repo.provider->0@,
            ) is None {
                Some(
                    "repo '"@ + name + "': provider \""@ + repo.provider->0@
                        + "\" is not a configured [providers.*] entry"@,
                )
            } else if agent_of(c, agent_name_of(repo)) is None {
                Some(
                    "repo '"@ + name + "': agent \""@ + agent_name_of(repo)
                        + "\" is not a configured [agents.*] entry (the built-in \"omp\" needs no section)"@,
                )
            } else {
                None
            },
        },
    }
}

pub open spec fn first_provider_error(s: Seq<(Seq<char>, Provider)>) -> Option<Seq<char>>
    decreases s.len(),
{
    if s.len() == 0 {
        None
    } else {
        match provider_error(s[0].0, s[0].1) {
            Some(e) => Some(e),
            None => first_provider_error(s.skip(1)),
        }
    }
}

pub open spec fn first_agent_error(s: Seq<(Seq<char>, Agent)>) -> Option<Seq<char>>
    decreases s.len(),
{
    if s.len() == 0 {
        None
    } else {
        match agent_error(s[0].0, s[0].1) {
            Some(e) => Some(e),
            None => first_agent_error(s.skip(1)),
        }
    }
}

pub open spec fn first_repo_error(c: Config, s: Seq<(Seq<char>, Repo)>) -> Option<Seq<char>>
    decreases s.len(),
{
    if s.len() == 0 {
        None
    } else {
        match repo_error(c, s[0].0, s[0].1) {
            Some(e) => Some(e),
            None => first_repo_error(c, s.skip(1)),
        }
    }
}

/// The first thing that is wrong with a configuration: providers, then agents,
/// then repositories, each by ascending name.
pub open spec fn config_error(c: Config) -> Option<Seq<char>> {
    match first_provider_error(c.providers@) {
        Some(e) => Some(e),
        None => match first_agent_error(c.agents@) {
            Some(e) => Some(e),
            None => first_repo_error(c, c.repos@),
        },
    }
}

fn check_template(template: &str) -> (r: Result<Option<String>, ConfigError>)
    ensures
        match (r, segments_of(template@)) {
            (Ok(var), Some(segs)) => text::opt_text(var) == bad_var(segs),
            (Err(e), None) => e@ == (ConfigErrorView::Validation {
                msg: unclosed_message(template@),
            }),
            _ => false,
        },
{
    let pieces = match segments(template) {
        Ok(pieces) => pieces,
        Err(e) => return Err(e),
    };
    let ghost segs = segment_views(pieces@);
    let mut i: usize = 0;
    assert(segs.skip(0) == segs);
    while i < pieces.len()
        invariant
            i <= pieces@.len(),
            segs == segment_views(pieces@),
            segments_of(template@) == Some(segs),
            bad_var(segs.skip(i as int)) == bad_var(segs),
        decreases pieces@.len() - i,
    {
        assert(segs.skip(i as int)[0] == pieces@[i as int]@);
        if let Segment::Var(var) = &pieces[i] {
            if !branch_var(var.as_str()) {
                return Ok(Some(var.clone()));
            }
        }
        assert(segs.skip(i as int).skip(1) == segs.skip(i + 1));
        i = i + 1;
    }
    Ok(None)
}

impl Config {
    fn validate_repo(&self, name: &str, repo: &Repo) -> (r: Result<(), ConfigError>)
        ensures
            match (r, repo_error(*self, name@, *repo)) {
                (Ok(_), None) => true,
                (Err(e), Some(msg)) => e@ == (ConfigErrorView::Validation { msg }),
                _ => false,
            },
    {
        match check_template(repo.branch_template.as_str()) {
            Err(e) => return Err(e),
            Ok(Some(var)) => {
                return Err(
                    ConfigError::Validation {
                        msg: "repo '".to_owned().concat(name).concat(
                            "': branch_template placeholder {",
                        ).concat(var.as_str()).concat(
                            "} is not one of {type}, {ticket}, {slug}",
                        ),
                    },
                );
            },
            Ok(None) => {},
        }
        if let Some(provider) = &repo.provider {
            if !self.providers.contains_key(provider.as_str()) {
                return Err(
                    ConfigError::Validation {
                        msg: "repo '".to_owned().concat(name).concat("': provider \"").concat(
                            provider.as_str(),
                        ).concat("\" is not a configured [providers.*] entry"),
                    },
                );
            }
        }
        if self.agent(repo.agent_name()).is_none() {
            return Err(
                ConfigError::Validation {
                    msg: "repo '".to_owned().concat(name).concat("': agent \"").concat(
                        repo.agent_name(),
                    ).concat(
                        "\" is not a configured [agents.*] entry (the built-in \"omp\" needs no section)",
                    ),
                },
            );
        }
        Ok(())
    }

    /// Checks the configuration and reports the first thing that is wrong with
    /// it.
    pub fn validate(&self) -> (r: Result<(), ConfigError>)
        ensures
            match (r, config_error(*self)) {
                (Ok(_), None) => true,
                (Err(e), Some(msg)) => e@ == (ConfigErrorView::Validation { msg }),
                _ => false,
            },
    {
        let ghost ps = self.providers@;
        let mut i: usize = 0;
        assert(ps.skip(0) == ps);
        while i < self.providers.len()
            invariant
                i <= ps.len(),
                ps == self.providers@,
                first_provider_error(ps.skip(i as int)) == first_provider_error(ps),
            decreases ps.len() - i,
        {
            let provider = self.providers.value(i);
            assert(ps.skip(i as int)[0] == ps[i as int]);
            if !known_kind(provider.kind.as_str()) {
                return Err(
                    ConfigError::Validation {
                        msg: "provider '".to_owned().concat(self.providers.key(i).as_str()).concat(
                            "': unknown kind \"",
                        ).concat(provider.kind.as_str()).concat(
                            "\" (known: jira, github, local)",
                        ),
                    },
                );
            }
            assert(ps.skip(i as int).skip(1) == ps.skip(i + 1));
            i = i + 1;
        }
        let ghost agents = self.agents@;
        let mut j: usize = 0;
        assert(agents.skip(0) == agents);
        while j < self.agents.len()
            invariant
                j <= agents.len(),
                agents == self.agents@,
                first_provider_error(self.providers@) is None,
                first_agent_error(agents.skip(j as int)) == first_agent_error(agents),
            decreases agents.len() - j,
        {
            assert(agents.skip(j as int)[0] == agents[j as int]);
            if self.agents.value(j).start_cmd.len() == 0 {
                return Err(
                    ConfigError::Validation {
                        msg: "agent '".to_owned().concat(self.agents.key(j).as_str()).concat(
                            "': start_cmd must not be empty",
                        ),
                    },
                );
            }
            assert(agents.skip(j as int).skip(1) == agents.skip(j + 1));
            j = j + 1;
        }
        let ghost repos = self.repos@;
        let mut k: usize = 0;
        assert(repos.skip(0) == repos);
        while k < self.repos.len()
            invariant
                k <= repos.len(),
                repos == self.repos@,
                first_provider_error(self.providers@) is None,
                first_agent_error(self.agents@) is None,
                first_repo_error(*self, repos.skip(k as int)) == first_repo_error(*self, repos),
            decreases repos.len() - k,
        {
            assert(repos.skip(k as int)[0] == repos[k as int]);
            match self.validate_repo(self.repos.key(k).as_str(), self.repos.value(k)) {
                Ok(_) => {},
                Err(e) => return Err(e),
            }
            assert(repos.skip(k as int).skip(1) == repos.skip(k + 1));
            k = k + 1;
        }
        Ok(())
    }
}

proof fn lemma_first_repo_error(c: Config, s: Seq<(Seq<char>, Repo)>, i: int)
    requires
        first_repo_error(c, s) is None,
        0 <= i < s.len(),
    ensures
        repo_error(c, s[i].0, s[i].1) is None,
    decreases s.len(),
{
    if i > 0 {
        lemma_first_repo_error(c, s.skip(1), i - 1);
        assert(s.skip(1)[i - 1] == s[i]);
    }
}

proof fn lemma_no_bad_var(segs: Seq<SegmentView>, i: int)
    requires
        bad_var(segs) is None,
        0 <= i < segs.len(),
    ensures
        segs[i] matches SegmentView::Var(var) ==> is_branch_var(var),
    decreases segs.len(),
{
    if i > 0 {
        lemma_no_bad_var(segs.skip(1), i - 1);
        assert(segs.skip(1)[i - 1] == segs[i]);
    }
}

proof fn lemma_all_filled(segs: Seq<SegmentView>, vars: Seq<(Seq<char>, String)>)
    requires
        forall|i: int|
            0 <= i < segs.len() ==> match #[trigger] segs[i] {
                SegmentView::Var(var) => table::lookup(vars, var) is Some,
                SegmentView::Lit(_) => true,
            },
    ensures
        filled(segs, vars) is Ok,
    decreases segs.len(),
{
    if segs.len() > 0 {
        let init = segs.drop_last();
        assert forall|i: int| 0 <= i < init.len() implies match #[trigger] init[i] {
            SegmentView::Var(var) => table::lookup(vars, var) is Some,
            SegmentView::Lit(_) => true,
        } by {
            assert(init[i] == segs[i]);
        }
        lemma_all_filled(init, vars);
        assert(segs.last() == segs[segs.len() - 1]);
    }
}

/// In a valid configuration every repository names an agent that resolves.
pub proof fn lemma_valid_repo(c: Config, i: int)
    requires
        config_error(c) is None,
        0 <= i < c.repos@.len(),
    ensures
        agent_of(c, agent_name_of(c.repos@[i].1)) is Some,
{
    lemma_first_repo_error(c, c.repos@, i);
}

/// In a valid configuration every repository names an agent that resolves, its
/// provider is configured, and its branch template renders for every ticket.
pub proof fn lemma_valid_repos_resolve(c: Config, i: int, vars: Seq<(Seq<char>, String)>)
    requires
        config_error(c) is None,
        0 <= i < c.repos@.len(),
        table::lookup(vars, "type"@) is Some,
        table::lookup(vars, "ticket"@) is Some,
        table::lookup(vars, "slug"@) is Some,
    ensures
        agent_of(c, agent_name_of(c.repos@[i].1)) is Some,
        c.repos@[i].1.provider matches Some(p) ==> table::lookup(c.providers@, p@) is Some,
        rendered(c.repos@[i].1.branch_template@, vars) is Ok,
{
    lemma_first_repo_error(c, c.repos@, i);
    let segs = segments_of(c.repos@[i].1.branch_template@)->0;
    assert forall|k: int| 0 <= k < segs.len() implies match #[trigger] segs[k] {
        SegmentView::Var(var) => table::lookup(vars, var) is Some,
        SegmentView::Lit(_) => true,
    } by {
        lemma_no_bad_var(segs, k);
    }
    lemma_all_filled(segs, vars);
}

// ---------------------------------------------------------------------------
// Loading

/// A repository with `~` expanded in its paths and everything else unchanged.
pub open spec fn is_expanded(before: Repo, after: Repo, home: Option<Seq<char>>) -> bool {
    &&& after.path@ == paths::expanded(before.path@, home)
    &&& text::opt_text(after.worktrees_root) == match before.worktrees_root {
        Some(root) => Some(paths::expanded(root@, home)),
        None => None,
    }
    &&& after.forge@ == before.forge@
    &&& after.base@ == before.base@
    &&& after.branch_template@ == before.branch_template@
    &&& text::texts(after.check_command@) == text::texts(before.check_command@)
    &&& after.rebase == before.rebase
    &&& after.ci_retry_cap == before.ci_retry_cap
    &&& after.merge_policy.ci@ == before.merge_policy.ci@
    &&& after.merge_policy.approvals == before.merge_policy.approvals
    &&& after.merge_policy.no_changes_requested == before.merge_policy.no_changes_requested
    &&& text::opt_text(after.provider) == text::opt_text(before.provider)
    &&& text::opt_text(after.remote_repo) == text::opt_text(before.remote_repo)
    &&& text::opt_text(after.agent) == text::opt_text(before.agent)
    &&& text::texts(after.setup_hook@) == text::texts(before.setup_hook@)
    &&& text::texts(after.teardown_hook@) == text::texts(before.teardown_hook@)
}

/// Every repository expanded, everything else unchanged.
pub open spec fn is_normalized(before: Config, after: Config, home: Option<Seq<char>>) -> bool {
    &&& after.profile == before.profile
    &&& after.providers == before.providers
    &&& after.agents == before.agents
    &&& after.budgets == before.budgets
    &&& table::keys_of(after.repos@) == table::keys_of(before.repos@)
    &&& after.repos@.len() == before.repos@.len()
    &&& forall|i: int|
        0 <= i < before.repos@.len() ==> is_expanded(
            before.repos@[i].1,
            (#[trigger] after.repos@[i]).1,
            home,
        )
}

fn expand_repo(repo: &Repo, home: &Option<String>) -> (r: Repo)
    ensures
        is_expanded(*repo, r, text::opt_text(*home)),
{
    Repo {
        path: expand_tilde(repo.path.as_str(), home),
        forge: repo.forge.clone(),
        base: repo.base.clone(),
        branch_template: repo.branch_template.clone(),
        check_command: copy_strings(&repo.check_command),
        rebase: repo.rebase,
        ci_retry_cap: repo.ci_retry_cap,
        merge_policy: MergePolicy {
            ci: repo.merge_policy.ci.clone(),
            approvals: repo.merge_policy.approvals,
            no_changes_requested: repo.merge_policy.no_changes_requested,
        },
        provider: copy_opt(&repo.provider),
        remote_repo: copy_opt(&repo.remote_repo),
        agent: copy_opt(&repo.agent),
        worktrees_root: match &repo.worktrees_root {
            Some(root) => Some(expand_tilde(root.as_str(), home)),
            None => None,
        },
        setup_hook: copy_strings(&repo.setup_hook),
        teardown_hook: copy_strings(&repo.teardown_hook),
    }
}

/// What came of reading and parsing a config file.
pub enum ConfigSource {
    /// The file was read and parsed.
    Parsed(Config),
    /// There is no file at the path.
    Missing { path: String, source: String },
    /// The file could not be read.
    Unreadable { path: String, source: String },
    /// The file is no valid TOML of this schema.
    Malformed { path: String, source: String },
}

impl Config {
    /// Expands a leading `~` in repository paths.
    pub fn normalize(self, home: &Option<String>) -> (r: Config)
        ensures
            is_normalized(self, r, text::opt_text(*home)),
    {
        let mut values: Vec<Repo> = Vec::new();
        let mut i: usize = 0;
        while i < self.repos.len()
            invariant
                i <= self.repos@.len(),
                values@.len() == i,
                forall|k: int|
                    0 <= k < i ==> is_expanded(
                        self.repos@[k].1,
                        #[trigger] values@[k],
                        text::opt_text(*home),
                    ),
            decreases self.repos@.len() - i,
        {
            values.push(expand_repo(self.repos.value(i), home));
            i = i + 1;
        }
        let ghost given = values@;
        let repos = self.repos.with_values(values);
        proof {
            assert(table::keys_of(repos@) == table::keys_of(self.repos@));
            assert forall|k: int| 0 <= k < self.repos@.len() implies is_expanded(
                self.repos@[k].1,
                (#[trigger] repos@[k]).1,
                text::opt_text(*home),
            ) by {
                assert(repos@[k].1 == given[k]);
            }
        }
        Config {
            profile: self.profile,
            providers: self.providers,
            agents: self.agents,
            repos,
            budgets: self.budgets,
        }
    }

    /// The configuration that a file yields, expanded and valid. A file that
    /// is missing at the default location yields the defaults; one that was
    /// named explicitly must exist.
    pub fn load(source: ConfigSource, explicit: bool, home: &Option<String>) -> (r: Result<
        Config,
        ConfigError,
    >)
        ensures
            match source {
                ConfigSource::Parsed(parsed) => match r {
                    Ok(c) => is_normalized(parsed, c, text::opt_text(*home)) && config_error(
                        c,
                    ) is None,
                    Err(e) => exists|c: Config|
                        is_normalized(parsed, c, text::opt_text(*home)) && #[trigger] config_error(
                            c,
                        ) is Some && e@ == (ConfigErrorView::Validation {
                            msg: config_error(c)->0,
                        }),
                },
                ConfigSource::Missing { path, source } => if explicit {
                    r matches Err(e) && e@ == (ConfigErrorView::Io {
                        path: path@,
                        source: source@,
                    })
                } else {
                    r matches Ok(c) && c.profile.lock_public_gate && c.providers@.len() == 0
                        && c.agents@.len() == 0 && c.repos@.len() == 0
                        && c.budgets.default_tokens_per_item == 0
                },
                ConfigSource::Unreadable { path, source } => r matches Err(e) && e@ == (
                ConfigErrorView::Io { path: path@, source: source@ }),
                ConfigSource::Malformed { path, source } => r matches Err(e) && e@ == (
                ConfigErrorView::Parse { path: path@, source: source@ }),
            },
    {
        match source {
            ConfigSource::Parsed(parsed) => {
                let config = parsed.normalize(home);
                match config.validate() {
                    Ok(_) => Ok(config),
                    Err(e) => Err(e),
                }
            },
            ConfigSource::Missing { path, source } => if explicit {
                Err(ConfigError::Io { path, source })
            } else {
                Ok(Config::default())
            },
            ConfigSource::Unreadable { path, source } => Err(ConfigError::Io { path, source }),
            ConfigSource::Malformed { path, source } => Err(ConfigError::Parse { path, source }),
        }
    }
}

// ---------------------------------------------------------------------------
// Slugs

/// The base letter of a common Latin letter with an accent, in either case. The
/// angstrom sign, U+212B, and the dotted capital I, U+0130, are such letters
/// too.
pub open spec fn unaccented(c: char) -> Option<char> {
    match c {
        'à' | 'á' | 'â' | 'ã' | 'ä' | 'å' => Some('a'),
        'À' | 'Á' | 'Â' | 'Ã' | 'Ä' | 'Å' | '\u{212b}' => Some('a'),
        'ç' | 'Ç' => Some('c'),
        'è' | 'é' | 'ê' | 'ë' | 'È' | 'É' | 'Ê' | 'Ë' => Some('e'),
        'ì' | 'í' | 'î' | 'ï' | 'Ì' | 'Í' | 'Î' | 'Ï' | '\u{130}' => Some('i'),
        'ñ' | 'Ñ' => Some('n'),
        'ò' | 'ó' | 'ô' | 'õ' | 'ö' | 'ø' | 'Ò' | 'Ó' | 'Ô' | 'Õ' | 'Ö' | 'Ø' => Some('o'),
        'ù' | 'ú' | 'û' | 'ü' | 'Ù' | 'Ú' | 'Û' | 'Ü' => Some('u'),
        'ý' | 'ÿ' | 'Ý' | 'Ÿ' => Some('y'),
        _ => None,
    }
}

/// The letter or digit that a character becomes in a slug: ASCII letters and
/// digits pass in lower case, common Latin accents fold to their base letter.
/// Everything else separates words.
pub open spec fn slug_char(c: char) -> Option<char> {
    let l = text::ascii_lower(c);
    if ('a' <= l <= 'z') || ('0' <= l <= '9') {
        Some(l)
    } else {
        unaccented(c)
    }
}

fn fold_char(c: char) -> (r: Option<char>)
    ensures
        r == slug_char(c),
{
    let l = to_ascii_lower(c);
    match l {
        'a'..='z' | '0'..='9' => Some(l),
        'à' | 'á' | 'â' | 'ã' | 'ä' | 'å' => Some('a'),
        'À' | 'Á' | 'Â' | 'Ã' | 'Ä' | 'Å' | '\u{212b}' => Some('a'),
        'ç' | 'Ç' => Some('c'),
        'è' | 'é' | 'ê' | 'ë' | 'È' | 'É' | 'Ê' | 'Ë' => Some('e'),
        'ì' | 'í' | 'î' | 'ï' | 'Ì' | 'Í' | 'Î' | 'Ï' | '\u{130}' => Some('i'),
        'ñ' | 'Ñ' => Some('n'),
        'ò' | 'ó' | 'ô' | 'õ' | 'ö' | 'ø' | 'Ò' | 'Ó' | 'Ô' | 'Õ' | 'Ö' | 'Ø' => Some('o'),
        'ù' | 'ú' | 'û' | 'ü' | 'Ù' | 'Ú' | 'Û' | 'Ü' => Some('u'),
        'ý' | 'ÿ' | 'Ý' | 'Ÿ' => Some('y'),
        _ => None,
    }
}

/// The words of a text, folded and joined by `-`.
pub open spec fn slug_words(s: Seq<char>) -> Seq<char>
    decreases s.len(),
{
    if s.len() == 0 {
        Seq::empty()
    } else {
        let done = slug_words(s.drop_last());
        match slug_char(s.last()) {
            None => done,
            Some(c) => if done.len() > 0 && slug_char(s[s.len() - 2]) is None {
                done.push('-').push(c)
            } else {
                done.push(c)
            },
        }
    }
}

/// The slug of a text: its words, cut to 40 characters and not ending in `-`.
pub open spec fn slug_of(s: Seq<char>) -> Seq<char> {
    let words = slug_words(s);
    let cut = if words.len() > 40 {
        words.take(40)
    } else {
        words
    };
    text::trimmed_end(cut, text::only('-'))
}

/// Branch-name slug: ASCII lower case, words joined by `-`, common Latin
/// accents folded, at most 40 characters and never ending in `-`.
pub fn slugify(input: &str) -> (r: String)
    ensures
        r@ == slug_of(input@),
{
    let chars = chars_of(input);
    let mut out: Vec<char> = Vec::new();
    let mut pending_sep: bool = false;
    let mut i: usize = 0;
    assert(input@.take(0) == Seq::<char>::empty());
    while i < chars.len()
        invariant
            i <= chars@.len(),
            chars@ == input@,
            out@ == slug_words(input@.take(i as int)),
            i > 0 ==> pending_sep == (slug_char(input@[i - 1]) is None),
            i == 0 ==> !pending_sep && out@.len() == 0,
        decreases chars@.len() - i,
    {
        let ghost next = input@.take(i + 1);
        assert(next.drop_last() == input@.take(i as int));
        assert(next.last() == input@[i as int]);
        if i > 0 {
            assert(next[next.len() - 2] == input@[i - 1]);
        }
        match fold_char(chars[i]) {
            Some(c) => {
                if pending_sep && out.len() > 0 {
                    out.push('-');
                }
                pending_sep = false;
                out.push(c);
            },
            None => {
                pending_sep = true;
            },
        }
        i = i + 1;
    }
    assert(input@.take(i as int) == input@);
    let n: usize = if out.len() > 40 {
        40
    } else {
        out.len()
    };
    let cut = string_between(&out, 0, n);
    assert(cut@ == if out@.len() > 40 {
        out@.take(40)
    } else {
        out@
    });
    text::trim_end_char(cut.as_str(), '-')
}

pub open spec fn is_word_char(c: char) -> bool {
    ('a' <= c <= 'z') || ('0' <= c <= '9')
}

/// Words of lower-case letters and digits with single `-` between them: a `-`
/// stands neither first nor next to another one.
pub open spec fn is_slug_prefix(s: Seq<char>) -> bool {
    &&& forall|i: int| 0 <= i < s.len() ==> is_word_char(#[trigger] s[i]) || s[i] == '-'
    &&& s.len() > 0 ==> s[0] != '-'
    &&& forall|i: int| 0 < i < s.len() && #[trigger] s[i] == '-' ==> s[i - 1] != '-'
}

proof fn lemma_slug_words(s: Seq<char>)
    ensures
        is_slug_prefix(slug_words(s)),
        slug_words(s).len() > 0 ==> slug_words(s).last() != '-',
    decreases s.len(),
{
    if s.len() > 0 {
        lemma_slug_words(s.drop_last());
        let done = slug_words(s.drop_last());
        let r = slug_words(s);
        assert forall|i: int| 0 < i < r.len() && #[trigger] r[i] == '-' implies r[i - 1] != '-' by {
            if i < done.len() {
                assert(r[i] == done[i]);
                assert(r[i - 1] == done[i - 1]);
            } else if i == done.len() {
                assert(r[i - 1] == done.last());
            }
        }
        assert forall|i: int| 0 <= i < r.len() implies is_word_char(#[trigger] r[i]) || r[i]
            == '-' by {
            if i < done.len() {
                assert(r[i] == done[i]);
            }
        }
        if done.len() > 0 {
            assert(r[0] == done[0]);
        }
    }
}

proof fn lemma_trimmed_end_prefix(s: Seq<char>, x: char)
    ensures
        text::trimmed_end(s, text::only(x)).len() <= s.len(),
        text::trimmed_end(s, text::only(x)) == s.take(
            text::trimmed_end(s, text::only(x)).len() as int,
        ),
        text::trimmed_end(s, text::only(x)).len() > 0 ==> text::trimmed_end(
            s,
            text::only(x),
        ).last() != x,
    decreases s.len(),
{
    if s.len() > 0 && s.last() == x {
        lemma_trimmed_end_prefix(s.drop_last(), x);
        let n = text::trimmed_end(s, text::only(x)).len() as int;
        assert(s.drop_last().take(n) == s.take(n));
    } else {
        assert(s.take(s.len() as int) == s);
    }
}

/// A slug has at most 40 characters, all lower-case letters, digits and single
/// `-` between them; it neither starts nor ends with `-`.
pub proof fn lemma_slug_shape(s: Seq<char>)
    ensures
        slug_of(s).len() <= 40,
        is_slug_prefix(slug_of(s)),
        slug_of(s).len() > 0 ==> slug_of(s).last() != '-',
{
    lemma_slug_words(s);
    let words = slug_words(s);
    let cut = if words.len() > 40 {
        words.take(40)
    } else {
        words
    };
    lemma_trimmed_end_prefix(cut, '-');
    let r = slug_of(s);
    let n = r.len() as int;
    assert forall|i: int| 0 <= i < n implies #[trigger] r[i] == words[i] by {
        assert(cut.take(n)[i] == cut[i]);
    }
    assert forall|i: int| 0 < i < n && #[trigger] r[i] == '-' implies r[i - 1] != '-' by {
        assert(words[i] == '-');
        assert(r[i - 1] == words[i - 1]);
    }
}

/// Words that are folded already stay as they are; a `-` at their end is
/// dropped.
proof fn lemma_slug_words_fixed(s: Seq<char>)
    requires
        is_slug_prefix(s),
    ensures
        slug_words(s) == if s.len() > 0 && s.last() == '-' {
            s.drop_last()
        } else {
            s
        },
    decreases s.len(),
{
    if s.len() > 0 {
        let init = s.drop_last();
        assert forall|i: int| 0 <= i < init.len() implies #[trigger] init[i] == s[i] by {}
        lemma_slug_words_fixed(init);
        if s.last() == '-' {
            assert(s[s.len() - 1] == '-');
            assert(s.len() > 1 ==> s[s.len() - 2] != '-');
        } else {
            assert(is_word_char(s[s.len() - 1]));
            if init.len() > 0 && init.last() == '-' {
                assert(init.len() > 1);
                assert(init.drop_last().push('-').push(s.last()) =~= s);
            } else {
                assert(init.len() > 0 ==> is_word_char(s[s.len() - 2]));
                assert(init.push(s.last()) =~= s);
            }
        }
    }
}

/// A slug is its own slug.
pub proof fn lemma_slug_is_stable(s: Seq<char>)
    ensures
        slug_of(slug_of(s)) == slug_of(s),
{
    lemma_slug_shape(s);
    lemma_slug_words_fixed(slug_of(s));
}

} // verus!
