//! Adapter contracts: everything the orchestrator talks to is one of these
//! traits, and everything that passes between them is plain data.
//!
//! Adapters decide nothing about gates: an action is approved first, adapters
//! only execute approved payloads. Calls marked as public actions need an
//! approved gate. Whether an error is worth a retry is the one thing a caller
//! learns from it; the rest is in the message.

use crate::json;
use crate::json::{Fields, Json, JsonView};
use crate::text;
use crate::text::{copy_opt, debug_quoted, i128_string, text_eq, u64_string};
use vstd::prelude::*;
use vstd::string::*;

verus! {

/// Error surface common to all adapters.
#[derive(Debug, PartialEq, Eq)]
pub enum AdapterError {
    /// Network trouble, server errors, rate limits: may be retried.
    Transient(String),
    /// Rejected, not found, invalid: a retry will not help.
    Permanent(String),
}

#[verifier::ext_equal]
pub enum AdapterErrorView {
    Transient(Seq<char>),
    Permanent(Seq<char>),
}

impl View for AdapterError {
    type V = AdapterErrorView;

    open spec fn view(&self) -> AdapterErrorView {
        match *self {
            AdapterError::Transient(m) => AdapterErrorView::Transient(m@),
            AdapterError::Permanent(m) => AdapterErrorView::Permanent(m@),
        }
    }
}

/// The message shown for an error.
pub open spec fn adapter_message(e: AdapterErrorView) -> Seq<char> {
    match e {
        AdapterErrorView::Transient(m) => "transient adapter error: "@ + m,
        AdapterErrorView::Permanent(m) => "permanent adapter error: "@ + m,
    }
}

impl AdapterError {
    pub fn message(&self) -> (r: String)
        ensures
            r@ == adapter_message(self@),
    {
        match self {
            AdapterError::Transient(m) => "transient adapter error: ".to_owned().concat(m.as_str()),
            AdapterError::Permanent(m) => "permanent adapter error: ".to_owned().concat(m.as_str()),
        }
    }
}

pub type AdapterResult<T> = Result<T, AdapterError>;

// ---------------------------------------------------------------------------
// Tickets

/// Identifies a ticket within a configured provider.
#[derive(Debug, PartialEq, Eq, Hash)]
pub struct TicketKey {
    pub provider: String,
    pub key: String,
}

#[verifier::ext_equal]
pub struct TicketKeyView {
    pub provider: Seq<char>,
    pub key: Seq<char>,
}

impl View for TicketKey {
    type V = TicketKeyView;

    open spec fn view(&self) -> TicketKeyView {
        TicketKeyView { provider: self.provider@, key: self.key@ }
    }
}

impl Clone for TicketKey {
    fn clone(&self) -> (r: TicketKey)
        ensures
            r@ == self@,
    {
        TicketKey { provider: self.provider.clone(), key: self.key.clone() }
    }
}

#[derive(Debug, PartialEq)]
pub struct Ticket {
    pub key: TicketKey,
    pub title: String,
    pub body: String,
    pub status: String,
    /// Provider-side login of the assignee; `None` when unassigned.
    pub assignee: Option<String>,
    pub url: String,
    /// Tickets this one is blocked by, as the provider declares them.
    pub blocked_by: Vec<TicketKey>,
}

pub open spec fn key_views(v: Seq<TicketKey>) -> Seq<TicketKeyView> {
    Seq::new(v.len(), |i: int| v[i]@)
}

#[verifier::ext_equal]
pub struct TicketView {
    pub key: TicketKeyView,
    pub title: Seq<char>,
    pub body: Seq<char>,
    pub status: Seq<char>,
    pub assignee: Option<Seq<char>>,
    pub url: Seq<char>,
    pub blocked_by: Seq<TicketKeyView>,
}

impl View for Ticket {
    type V = TicketView;

    open spec fn view(&self) -> TicketView {
        TicketView {
            key: self.key@,
            title: self.title@,
            body: self.body@,
            status: self.status@,
            assignee: text::opt_text(self.assignee),
            url: self.url@,
            blocked_by: key_views(self.blocked_by@),
        }
    }
}

pub fn copy_keys(v: &Vec<TicketKey>) -> (r: Vec<TicketKey>)
    ensures
        key_views(r@) == key_views(v@),
{
    let mut out: Vec<TicketKey> = Vec::new();
    let mut i: usize = 0;
    while i < v.len()
        invariant
            i <= v@.len(),
            out@.len() == i,
            forall|k: int| 0 <= k < i ==> (#[trigger] out@[k])@ == v@[k]@,
        decreases v@.len() - i,
    {
        out.push(v[i].clone());
        i = i + 1;
    }
    assert(key_views(out@) == key_views(v@));
    out
}

impl Clone for Ticket {
    fn clone(&self) -> (r: Ticket)
        ensures
            r@ == self@,
    {
        Ticket {
            key: self.key.clone(),
            title: self.title.clone(),
            body: self.body.clone(),
            status: self.status.clone(),
            assignee: copy_opt(&self.assignee),
            url: self.url.clone(),
            blocked_by: copy_keys(&self.blocked_by),
        }
    }
}

#[derive(Debug, PartialEq)]
pub struct TrackerTransition {
    pub id: String,
    pub name: String,
}

impl Clone for TrackerTransition {
    fn clone(&self) -> (r: TrackerTransition)
        ensures
            r == *self,
    {
        TrackerTransition { id: self.id.clone(), name: self.name.clone() }
    }
}

pub trait TicketProvider: Send + Sync {
    /// Tickets assigned to the configured user. A convenience filter: the
    /// assignee is checked again wherever it matters.
    fn my_tickets(&self) -> AdapterResult<Vec<Ticket>>;

    fn get(&self, key: &TicketKey) -> AdapterResult<Ticket>;

    fn available_transitions(&self, key: &TicketKey) -> AdapterResult<Vec<TrackerTransition>>;

    /// Public action: needs an approved gate.
    fn apply_transition(
        &self,
        key: &TicketKey,
        transition: &TrackerTransition,
    ) -> AdapterResult<()>;
}

// ---------------------------------------------------------------------------
// Agents

#[derive(Debug, PartialEq, Eq, Hash)]
pub struct AgentSessionId(pub String);

impl Clone for AgentSessionId {
    fn clone(&self) -> (r: AgentSessionId)
        ensures
            r.0@ == self.0@,
    {
        AgentSessionId(self.0.clone())
    }
}

/// Everything a backend needs to start working on a ticket.
#[derive(Debug)]
pub struct AgentTask {
    pub work_item_id: i64,
    pub worktree: String,
    pub ticket: Ticket,
    /// Instructions composed for the agent: conventions, scope, definition of
    /// done.
    pub instructions: String,
}

#[verifier::ext_equal]
pub struct AgentTaskView {
    pub work_item_id: int,
    pub worktree: Seq<char>,
    pub ticket: TicketView,
    pub instructions: Seq<char>,
}

impl View for AgentTask {
    type V = AgentTaskView;

    open spec fn view(&self) -> AgentTaskView {
        AgentTaskView {
            work_item_id: self.work_item_id as int,
            worktree: self.worktree@,
            ticket: self.ticket@,
            instructions: self.instructions@,
        }
    }
}

impl Clone for AgentTask {
    fn clone(&self) -> (r: AgentTask)
        ensures
            r@ == self@,
    {
        AgentTask {
            work_item_id: self.work_item_id,
            worktree: self.worktree.clone(),
            ticket: self.ticket.clone(),
            instructions: self.instructions.clone(),
        }
    }
}

#[derive(Debug, PartialEq)]
pub enum AgentStatus {
    Running,
    /// The agent asked a question and needs human input to continue.
    WaitingInput { prompt: String },
    Finished { success: bool, summary: String },
    Failed { message: String },
}

impl Clone for AgentStatus {
    fn clone(&self) -> (r: AgentStatus)
        ensures
            r == *self,
    {
        match self {
            AgentStatus::Running => AgentStatus::Running,
            AgentStatus::WaitingInput { prompt } => AgentStatus::WaitingInput {
                prompt: prompt.clone(),
            },
            AgentStatus::Finished { success, summary } => AgentStatus::Finished {
                success: *success,
                summary: summary.clone(),
            },
            AgentStatus::Failed { message } => AgentStatus::Failed { message: message.clone() },
        }
    }
}

#[verifier::ext_equal]
pub enum AgentStatusView {
    Running,
    WaitingInput { prompt: Seq<char> },
    Finished { success: bool, summary: Seq<char> },
    Failed { message: Seq<char> },
}

impl View for AgentStatus {
    type V = AgentStatusView;

    open spec fn view(&self) -> AgentStatusView {
        match *self {
            AgentStatus::Running => AgentStatusView::Running,
            AgentStatus::WaitingInput { prompt } => AgentStatusView::WaitingInput {
                prompt: prompt@,
            },
            AgentStatus::Finished { success, summary } => AgentStatusView::Finished {
                success,
                summary: summary@,
            },
            AgentStatus::Failed { message } => AgentStatusView::Failed { message: message@ },
        }
    }
}

#[derive(Debug, Clone, Copy, PartialEq, Eq, Structural)]
pub struct TokenUsage {
    pub input: u64,
    pub output: u64,
}

impl Default for TokenUsage {
    fn default() -> (r: TokenUsage)
        ensures
            r == (TokenUsage { input: 0, output: 0 }),
    {
        TokenUsage { input: 0, output: 0 }
    }
}

pub trait AgentRunner: Send + Sync {
    fn start(&self, task: &AgentTask) -> AdapterResult<AgentSessionId>;

    /// Feeds a follow-up message: review feedback, the answer to a question.
    fn resume(&self, id: &AgentSessionId, message: &str) -> AdapterResult<()>;

    fn status(&self, id: &AgentSessionId) -> AdapterResult<AgentStatus>;

    fn cancel(&self, id: &AgentSessionId) -> AdapterResult<()>;

    fn usage(&self, id: &AgentSessionId) -> AdapterResult<TokenUsage>;

    /// Path of the session transcript, if there is one.
    fn transcript(&self, id: &AgentSessionId) -> AdapterResult<Option<String>>;
}

// ---------------------------------------------------------------------------
// Forge

/// `owner/repo` and the number of a pull request.
#[derive(Debug, PartialEq, Eq, Hash)]
pub struct PrRef {
    pub repo: String,
    pub number: u64,
}

#[verifier::ext_equal]
pub struct PrRefView {
    pub repo: Seq<char>,
    pub number: int,
}

impl View for PrRef {
    type V = PrRefView;

    open spec fn view(&self) -> PrRefView {
        PrRefView { repo: self.repo@, number: self.number as int }
    }
}

impl Clone for PrRef {
    fn clone(&self) -> (r: PrRef)
        ensures
            r@ == self@,
    {
        PrRef { repo: self.repo.clone(), number: self.number }
    }
}

#[derive(Debug, PartialEq)]
pub struct PrDraft {
    pub repo: String,
    pub title: String,
    pub body: String,
    pub base: String,
    pub head: String,
    pub draft: bool,
}

#[verifier::ext_equal]
pub struct PrDraftView {
    pub repo: Seq<char>,
    pub title: Seq<char>,
    pub body: Seq<char>,
    pub base: Seq<char>,
    pub head: Seq<char>,
    pub draft: bool,
}

impl View for PrDraft {
    type V = PrDraftView;

    open spec fn view(&self) -> PrDraftView {
        PrDraftView {
            repo: self.repo@,
            title: self.title@,
            body: self.body@,
            base: self.base@,
            head: self.head@,
            draft: self.draft,
        }
    }
}

impl Clone for PrDraft {
    fn clone(&self) -> (r: PrDraft)
        ensures
            r@ == self@,
    {
        PrDraft {
            repo: self.repo.clone(),
            title: self.title.clone(),
            body: self.body.clone(),
            base: self.base.clone(),
            head: self.head.clone(),
            draft: self.draft,
        }
    }
}

/// The payload that carries a draft through a gate.
pub open spec fn draft_json(d: PrDraftView) -> JsonView {
    JsonView::Object(
        seq![
            ("base"@, JsonView::Str(d.base)),
            ("body"@, JsonView::Str(d.body)),
            ("draft"@, JsonView::Bool(d.draft)),
            ("head"@, JsonView::Str(d.head)),
            ("repo"@, JsonView::Str(d.repo)),
            ("title"@, JsonView::Str(d.title)),
        ],
    )
}

/// What a value is called where another was expected.
pub open spec fn unexpected(j: JsonView) -> Seq<char> {
    match j {
        JsonView::Null => "null"@,
        JsonView::Bool(b) => if b {
            "boolean `true`"@
        } else {
            "boolean `false`"@
        },
        JsonView::Int(n) => "integer `"@ + text::int_text(n) + "`"@,
        JsonView::Float(s) => "floating point `"@ + s + "`"@,
        JsonView::Str(s) => "string "@ + text::debug_text(s),
        JsonView::List(_) => "sequence"@,
        JsonView::Object(_) => "map"@,
    }
}

/// The complaint about a value where something else was expected.
pub open spec fn mistyped(j: JsonView, expected: Seq<char>) -> Seq<char> {
    "invalid type: "@ + unexpected(j) + ", expected "@ + expected
}

/// The fields of a draft, in their order.
pub open spec fn draft_fields() -> Seq<Seq<char>> {
    seq!["repo"@, "title"@, "body"@, "base"@, "head"@, "draft"@]
}

/// The first member that is a field of a draft and has the wrong type.
pub open spec fn first_mistyped(members: Seq<(Seq<char>, JsonView)>) -> Option<Seq<char>>
    decreases members.len(),
{
    if members.len() == 0 {
        None
    } else {
        let (key, value) = members[0];
        if key == "draft"@ {
            if value is Bool {
                first_mistyped(members.skip(1))
            } else {
                Some(mistyped(value, "a boolean"@))
            }
        } else if draft_fields().contains(key) && !(value is Str) {
            Some(mistyped(value, "a string"@))
        } else {
            first_mistyped(members.skip(1))
        }
    }
}

/// A text among the parts of a draft; `absent` is the complaint where there is
/// no such part.
pub open spec fn text_part(part: Option<JsonView>, absent: Seq<char>) -> Result<
    Seq<char>,
    Seq<char>,
> {
    match part {
        None => Err(absent),
        Some(JsonView::Str(s)) => Ok(s),
        Some(other) => Err(mistyped(other, "a string"@)),
    }
}

/// A boolean among the parts of a draft.
pub open spec fn bool_part(part: Option<JsonView>, absent: Seq<char>) -> Result<bool, Seq<char>> {
    match part {
        None => Err(absent),
        Some(JsonView::Bool(b)) => Ok(b),
        Some(other) => Err(mistyped(other, "a boolean"@)),
    }
}

/// The draft that six parts make up, or the first complaint.
pub open spec fn draft_from(parts: Seq<Option<JsonView>>, absent: Seq<Seq<char>>) -> Result<
    PrDraftView,
    Seq<char>,
> {
    match text_part(parts[0], absent[0]) {
        Err(e) => Err(e),
        Ok(repo) => match text_part(parts[1], absent[1]) {
            Err(e) => Err(e),
            Ok(title) => match text_part(parts[2], absent[2]) {
                Err(e) => Err(e),
                Ok(body) => match text_part(parts[3], absent[3]) {
                    Err(e) => Err(e),
                    Ok(base) => match text_part(parts[4], absent[4]) {
                        Err(e) => Err(e),
                        Ok(head) => match bool_part(parts[5], absent[5]) {
                            Err(e) => Err(e),
                            Ok(draft) => Ok(PrDraftView { repo, title, body, base, head, draft }),
                        },
                    },
                },
            },
        },
    }
}

/// The complaints about missing members.
pub open spec fn missing_members() -> Seq<Seq<char>> {
    Seq::new(6, |i: int| "missing field `"@ + draft_fields()[i] + "`"@)
}

/// The complaints about a list that ends too early.
pub open spec fn missing_items() -> Seq<Seq<char>> {
    Seq::new(
        6,
        |i: int|
            "invalid length "@ + text::int_text(i) + ", expected struct PrDraft with 6 elements"@,
    )
}

/// The draft that a payload carries, or the first thing that is wrong with the
/// payload. A draft is an object, whose other members do not matter, or the
/// list of its fields in their order.
pub open spec fn draft_of(j: JsonView) -> Result<PrDraftView, Seq<char>> {
    match j {
        JsonView::Object(members) => match first_mistyped(members) {
            Some(e) => Err(e),
            None => draft_from(
                Seq::new(6, |i: int| json::member(j, draft_fields()[i])),
                missing_members(),
            ),
        },
        JsonView::List(items) => match draft_from(
            Seq::new(
                6,
                |i: int|
                    if i < items.len() {
                        Some(items[i])
                    } else {
                        None
                    },
            ),
            missing_items(),
        ) {
            Err(e) => Err(e),
            Ok(draft) => if items.len() > 6 {
                Err(
                    "invalid length "@ + text::int_text(items.len() as int)
                        + ", expected fewer elements in array"@,
                )
            } else {
                Ok(draft)
            },
        },
        _ => Err(mistyped(j, "struct PrDraft"@)),
    }
}

fn complaint(j: &Json, expected: &str) -> (r: String)
    ensures
        r@ == mistyped(j@, expected@),
{
    let found = match j {
        Json::Null => "null".to_owned(),
        Json::Bool(b) => if *b {
            "boolean `true`".to_owned()
        } else {
            "boolean `false`".to_owned()
        },
        Json::Int(n) => "integer `".to_owned().concat(i128_string(*n).as_str()).concat("`"),
        Json::Float(s) => "floating point `".to_owned().concat(s.as_str()).concat("`"),
        Json::Str(s) => "string ".to_owned().concat(debug_quoted(s.as_str()).as_str()),
        Json::List(_) => "sequence".to_owned(),
        Json::Object(_) => "map".to_owned(),
    };
    "invalid type: ".to_owned().concat(found.as_str()).concat(", expected ").concat(expected)
}

fn get_text(part: Option<&Json>, absent: &str) -> (r: Result<String, String>)
    ensures
        match (r, text_part(part_view(part), absent@)) {
            (Ok(s), Ok(v)) => s@ == v,
            (Err(e), Err(v)) => e@ == v,
            _ => false,
        },
{
    match part {
        None => Err(absent.to_owned()),
        Some(Json::Str(s)) => Ok(s.clone()),
        Some(other) => Err(complaint(other, "a string")),
    }
}

fn get_bool(part: Option<&Json>, absent: &str) -> (r: Result<bool, String>)
    ensures
        match (r, bool_part(part_view(part), absent@)) {
            (Ok(b), Ok(v)) => b == v,
            (Err(e), Err(v)) => e@ == v,
            _ => false,
        },
{
    match part {
        None => Err(absent.to_owned()),
        Some(Json::Bool(b)) => Ok(*b),
        Some(other) => Err(complaint(other, "a boolean")),
    }
}

pub open spec fn part_view(part: Option<&Json>) -> Option<JsonView> {
    match part {
        Some(j) => Some(j@),
        None => None,
    }
}

fn read_draft(parts: &Vec<Option<&Json>>, absent: &Vec<String>) -> (r: Result<PrDraft, String>)
    requires
        parts@.len() == 6,
        absent@.len() == 6,
    ensures
        match (
            r,
            draft_from(Seq::new(6, |i: int| part_view(parts@[i])), text::texts(absent@)),
        ) {
            (Ok(d), Ok(v)) => d@ == v,
            (Err(e), Err(v)) => e@ == v,
            _ => false,
        },
{
    let repo = match get_text(parts[0], absent[0].as_str()) {
        Ok(s) => s,
        Err(e) => return Err(e),
    };
    let title = match get_text(parts[1], absent[1].as_str()) {
        Ok(s) => s,
        Err(e) => return Err(e),
    };
    let body = match get_text(parts[2], absent[2].as_str()) {
        Ok(s) => s,
        Err(e) => return Err(e),
    };
    let base = match get_text(parts[3], absent[3].as_str()) {
        Ok(s) => s,
        Err(e) => return Err(e),
    };
    let head = match get_text(parts[4], absent[4].as_str()) {
        Ok(s) => s,
        Err(e) => return Err(e),
    };
    let draft = match get_bool(parts[5], absent[5].as_str()) {
        Ok(b) => b,
        Err(e) => return Err(e),
    };
    Ok(PrDraft { repo, title, body, base, head, draft })
}

fn find_mistyped(members: &Vec<(String, Json)>) -> (r: Option<String>)
    ensures
        text::opt_text(r) == first_mistyped(json::fields_view(members@)),
{
    let ghost all = json::fields_view(members@);
    proof {
        json::lemma_fields_view(members@);
        assert(all.skip(0) == all);
    }
    let mut i: usize = 0;
    while i < members.len()
        invariant
            i <= members@.len(),
            all == json::fields_view(members@),
            all.len() == members@.len(),
            forall|k: int|
                0 <= k < members@.len() ==> #[trigger] all[k] == (
                    members@[k].0@,
                    members@[k].1@,
                ),
            first_mistyped(all) == first_mistyped(all.skip(i as int)),
        decreases members@.len() - i,
    {
        let key = members[i].0.as_str();
        let value = &members[i].1;
        proof {
            assert(all.skip(i as int)[0] == all[i as int]);
            assert(all.skip(i as int).skip(1) == all.skip(i as int + 1));
            lemma_draft_fields(key@);
        }
        if text_eq(key, "draft") {
            match value {
                Json::Bool(_) => {},
                _ => return Some(complaint(value, "a boolean")),
            }
        } else if text_eq(key, "repo") || text_eq(key, "title") || text_eq(key, "body")
            || text_eq(key, "base") || text_eq(key, "head") {
            match value {
                Json::Str(_) => {},
                _ => return Some(complaint(value, "a string")),
            }
        }
        i = i + 1;
    }
    assert(all.skip(i as int).len() == 0);
    None
}

proof fn lemma_draft_fields(key: Seq<char>)
    ensures
        draft_fields().contains(key) <==> key == "repo"@ || key == "title"@ || key == "body"@
            || key == "base"@ || key == "head"@ || key == "draft"@,
{
    let f = draft_fields();
    assert(f[0] == "repo"@ && f[1] == "title"@ && f[2] == "body"@);
    assert(f[3] == "base"@ && f[4] == "head"@ && f[5] == "draft"@);
}

impl PrDraft {
    pub fn to_json(&self) -> (r: Json)
        ensures
            r@ == draft_json(self@),
    {
        let fields = Fields::new().with("base", Json::text(self.base.as_str())).with(
            "body",
            Json::text(self.body.as_str()),
        ).with("draft", Json::Bool(self.draft)).with("head", Json::text(self.head.as_str())).with(
            "repo",
            Json::text(self.repo.as_str()),
        ).with("title", Json::text(self.title.as_str()));
        assert(fields@ == seq![
            ("base"@, JsonView::Str(self.base@)),
            ("body"@, JsonView::Str(self.body@)),
            ("draft"@, JsonView::Bool(self.draft)),
            ("head"@, JsonView::Str(self.head@)),
            ("repo"@, JsonView::Str(self.repo@)),
            ("title"@, JsonView::Str(self.title@)),
        ]);
        fields.done()
    }

    pub fn from_json(j: &Json) -> (r: Result<PrDraft, String>)
        ensures
            match (r, draft_of(j@)) {
                (Ok(d), Ok(v)) => d@ == v,
                (Err(e), Err(v)) => e@ == v,
                _ => false,
            },
    {
        match j {
            Json::Object(members) => {
                match find_mistyped(members) {
                    Some(e) => return Err(e),
                    None => {},
                }
                let parts: Vec<Option<&Json>> = vec![
                    j.get("repo"),
                    j.get("title"),
                    j.get("body"),
                    j.get("base"),
                    j.get("head"),
                    j.get("draft"),
                ];
                let absent: Vec<String> = vec![
                    "missing field `".to_owned().concat("repo").concat("`"),
                    "missing field `".to_owned().concat("title").concat("`"),
                    "missing field `".to_owned().concat("body").concat("`"),
                    "missing field `".to_owned().concat("base").concat("`"),
                    "missing field `".to_owned().concat("head").concat("`"),
                    "missing field `".to_owned().concat("draft").concat("`"),
                ];
                proof {
                    assert(text::texts(absent@) == missing_members());
                    assert(Seq::new(6, |i: int| part_view(parts@[i])) == Seq::new(
                        6,
                        |i: int| json::member(j@, draft_fields()[i]),
                    ));
                }
                read_draft(&parts, &absent)
            },
            Json::List(items) => {
                let mut parts: Vec<Option<&Json>> = Vec::new();
                let mut absent: Vec<String> = Vec::new();
                let mut i: usize = 0;
                while i < 6
                    invariant
                        i <= 6,
                        parts@.len() == i,
                        absent@.len() == i,
                        forall|k: int|
                            0 <= k < i ==> part_view(#[trigger] parts@[k]) == (if k
                                < items@.len() {
                                Some(items@[k]@)
                            } else {
                                None
                            }),
                        forall|k: int|
                            0 <= k < i ==> (#[trigger] absent@[k])@ == missing_items()[k],
                    decreases 6 - i,
                {
                    parts.push(
                        if i < items.len() {
                            Some(&items[i])
                        } else {
                            None
                        },
                    );
                    absent.push(
                        "invalid length ".to_owned().concat(u64_string(i as u64).as_str()).concat(
                            ", expected struct PrDraft with 6 elements",
                        ),
                    );
                    i = i + 1;
                }
                proof {
                    json::lemma_list_view(items@);
                    let views = j@->List_0;
                    assert(text::texts(absent@) == missing_items());
                    assert(Seq::new(6, |i: int| part_view(parts@[i])) == Seq::new(
                        6,
                        |i: int|
                            if i < views.len() {
                                Some(views[i])
                            } else {
                                None
                            },
                    ));
                }
                let draft = match read_draft(&parts, &absent) {
                    Ok(draft) => draft,
                    Err(e) => return Err(e),
                };
                if items.len() > 6 {
                    return Err(
                        "invalid length ".to_owned().concat(
                            u64_string(items.len() as u64).as_str(),
                        ).concat(", expected fewer elements in array"),
                    );
                }
                Ok(draft)
            },
            _ => Err(complaint(j, "struct PrDraft")),
        }
    }
}

/// What a gate carries is what is executed: reading a draft's payload gives
/// the draft.
pub proof fn lemma_draft_round_trip(d: PrDraftView)
    ensures
        draft_of(draft_json(d)) == Ok::<PrDraftView, Seq<char>>(d),
{
    use_draft_keys();
    let j = draft_json(d);
    let f = j->Object_0;
    reveal_with_fuel(crate::json::member_from, 7);
    reveal_with_fuel(first_mistyped, 7);
    assert(f.skip(1).skip(1) == f.skip(2));
    assert(f.skip(2).skip(1) == f.skip(3));
    assert(f.skip(3).skip(1) == f.skip(4));
    assert(f.skip(4).skip(1) == f.skip(5));
    assert(f.skip(5).skip(1).len() == 0);
    assert(first_mistyped(f) is None);
}

proof fn use_draft_keys()
    ensures
        "base"@ != "body"@,
        "base"@ != "draft"@,
        "base"@ != "head"@,
        "base"@ != "repo"@,
        "base"@ != "title"@,
        "body"@ != "draft"@,
        "body"@ != "head"@,
        "body"@ != "repo"@,
        "body"@ != "title"@,
        "draft"@ != "head"@,
        "draft"@ != "repo"@,
        "draft"@ != "title"@,
        "head"@ != "repo"@,
        "head"@ != "title"@,
        "repo"@ != "title"@,
{
    reveal_strlit("base");
    reveal_strlit("body");
    reveal_strlit("draft");
    reveal_strlit("head");
    reveal_strlit("repo");
    reveal_strlit("title");
    assert("base"@[1] == 'a' && "body"@[1] == 'o' && "head"@[0] == 'h' && "repo"@[0] == 'r');
    assert("base"@[0] == 'b' && "body"@[0] == 'b');
    assert("draft"@[0] == 'd' && "title"@[0] == 't');
}

#[derive(Debug, PartialEq)]
pub struct CheckRun {
    pub name: String,
    /// queued, in_progress or completed
    pub status: String,
    /// success, failure, cancelled, …; absent while not completed
    pub conclusion: Option<String>,
    pub url: Option<String>,
}

impl Clone for CheckRun {
    fn clone(&self) -> (r: CheckRun)
        ensures
            r == *self,
    {
        CheckRun {
            name: self.name.clone(),
            status: self.status.clone(),
            conclusion: copy_opt(&self.conclusion),
            url: copy_opt(&self.url),
        }
    }
}

#[derive(Debug, PartialEq)]
pub struct Review {
    pub author: String,
    /// APPROVED, CHANGES_REQUESTED or COMMENTED
    pub state: String,
}

impl Clone for Review {
    fn clone(&self) -> (r: Review)
        ensures
            r == *self,
    {
        Review { author: self.author.clone(), state: self.state.clone() }
    }
}

#[derive(Debug, PartialEq)]
pub struct PrComment {
    pub id: u64,
    pub author: String,
    pub body: String,
    pub is_bot: bool,
    pub created_at: String,
}

impl Clone for PrComment {
    fn clone(&self) -> (r: PrComment)
        ensures
            r == *self,
    {
        PrComment {
            id: self.id,
            author: self.author.clone(),
            body: self.body.clone(),
            is_bot: self.is_bot,
            created_at: self.created_at.clone(),
        }
    }
}

/// One consistent snapshot of a pull request.
#[derive(Debug, PartialEq)]
pub struct PrSnapshot {
    pub pr: PrRef,
    /// open, closed or merged
    pub state: String,
    pub draft: bool,
    pub base: String,
    pub head_sha: String,
    /// `None` while the forge still computes it.
    pub mergeable: Option<bool>,
    pub checks: Vec<CheckRun>,
    pub reviews: Vec<Review>,
    pub comments: Vec<PrComment>,
}

#[verifier::ext_equal]
pub struct CheckRunView {
    pub name: Seq<char>,
    pub status: Seq<char>,
    pub conclusion: Option<Seq<char>>,
    pub url: Option<Seq<char>>,
}

#[verifier::ext_equal]
pub struct ReviewView {
    pub author: Seq<char>,
    pub state: Seq<char>,
}

#[verifier::ext_equal]
pub struct PrCommentView {
    pub id: int,
    pub author: Seq<char>,
    pub body: Seq<char>,
    pub is_bot: bool,
    pub created_at: Seq<char>,
}

#[verifier::ext_equal]
pub struct PrSnapshotView {
    pub pr: PrRefView,
    pub state: Seq<char>,
    pub draft: bool,
    pub base: Seq<char>,
    pub head_sha: Seq<char>,
    pub mergeable: Option<bool>,
    pub checks: Seq<CheckRunView>,
    pub reviews: Seq<ReviewView>,
    pub comments: Seq<PrCommentView>,
}

impl View for CheckRun {
    type V = CheckRunView;

    open spec fn view(&self) -> CheckRunView {
        CheckRunView {
            name: self.name@,
            status: self.status@,
            conclusion: text::opt_text(self.conclusion),
            url: text::opt_text(self.url),
        }
    }
}

impl View for Review {
    type V = ReviewView;

    open spec fn view(&self) -> ReviewView {
        ReviewView { author: self.author@, state: self.state@ }
    }
}

impl View for PrComment {
    type V = PrCommentView;

    open spec fn view(&self) -> PrCommentView {
        PrCommentView {
            id: self.id as int,
            author: self.author@,
            body: self.body@,
            is_bot: self.is_bot,
            created_at: self.created_at@,
        }
    }
}

pub open spec fn check_views(v: Seq<CheckRun>) -> Seq<CheckRunView> {
    Seq::new(v.len(), |i: int| v[i]@)
}

pub open spec fn review_views(v: Seq<Review>) -> Seq<ReviewView> {
    Seq::new(v.len(), |i: int| v[i]@)
}

pub open spec fn comment_views(v: Seq<PrComment>) -> Seq<PrCommentView> {
    Seq::new(v.len(), |i: int| v[i]@)
}

impl View for PrSnapshot {
    type V = PrSnapshotView;

    open spec fn view(&self) -> PrSnapshotView {
        PrSnapshotView {
            pr: self.pr@,
            state: self.state@,
            draft: self.draft,
            base: self.base@,
            head_sha: self.head_sha@,
            mergeable: self.mergeable,
            checks: check_views(self.checks@),
            reviews: review_views(self.reviews@),
            comments: comment_views(self.comments@),
        }
    }
}

impl Clone for PrSnapshot {
    fn clone(&self) -> (r: PrSnapshot)
        ensures
            r@ == self@,
    {
        let r = PrSnapshot {
            pr: self.pr.clone(),
            state: self.state.clone(),
            draft: self.draft,
            base: self.base.clone(),
            head_sha: self.head_sha.clone(),
            mergeable: self.mergeable,
            checks: self.checks.clone(),
            reviews: self.reviews.clone(),
            comments: self.comments.clone(),
        };
        proof {
            assert(r.checks@ =~= self.checks@);
            assert(r.reviews@ =~= self.reviews@);
            assert(r.comments@ =~= self.comments@);
        }
        r
    }
}

#[derive(Debug, Clone, Copy, PartialEq, Eq, Structural)]
pub enum MergeMethod {
    Merge,
    Squash,
    Rebase,
}

pub trait Forge: Send + Sync {
    /// Public action: needs an approved gate.
    fn create_pr(&self, draft: &PrDraft) -> AdapterResult<PrRef>;

    fn pr_snapshot(&self, pr: &PrRef) -> AdapterResult<PrSnapshot>;

    /// Public action.
    fn post_comment(&self, pr: &PrRef, body: &str) -> AdapterResult<()>;

    /// Public action.
    fn merge(&self, pr: &PrRef, method: MergeMethod) -> AdapterResult<()>;
}

// ---------------------------------------------------------------------------
// Notifications and secrets

#[derive(Debug, PartialEq)]
pub struct Notification {
    pub title: String,
    pub body: String,
    /// The work item the notification points at, when there is one.
    pub work_item_id: Option<i64>,
}

impl Clone for Notification {
    fn clone(&self) -> (r: Notification)
        ensures
            r == *self,
    {
        Notification {
            title: self.title.clone(),
            body: self.body.clone(),
            work_item_id: self.work_item_id,
        }
    }
}

pub trait Notifier: Send + Sync {
    fn notify(&self, notification: &Notification) -> AdapterResult<()>;
}

/// Opaque secret: its value is read through [`Secret::expose`] alone and never
/// shown.
pub struct Secret(String);

impl View for Secret {
    type V = Seq<char>;

    closed spec fn view(&self) -> Seq<char> {
        self.0@
    }
}

impl Secret {
    pub fn new(value: String) -> (r: Secret)
        ensures
            r@ == value@,
    {
        Secret(value)
    }

    pub fn expose(&self) -> (r: &str)
        ensures
            r@ == self@,
    {
        self.0.as_str()
    }

    /// What may be shown of a secret: the same text for every value.
    pub fn debug(&self) -> (r: &'static str)
        ensures
            r@ == "Secret(***)"@,
    {
        "Secret(***)"
    }
}

impl Clone for Secret {
    fn clone(&self) -> (r: Secret)
        ensures
            r@ == self@,
    {
        Secret(self.0.clone())
    }
}

/// A place where secrets are kept. What a store answers is its own affair, and
/// each store says so with the two relations: which answers it may give to a
/// read of a key, and to a write of a secret under a key. A store that says
/// nothing may give any answer.
pub trait SecretStore: Send + Sync {
    open spec fn may_get(&self, key: Seq<char>, r: AdapterResult<Option<Secret>>) -> bool {
        true
    }

    open spec fn may_set(&self, key: Seq<char>, value: Seq<char>, r: AdapterResult<()>) -> bool {
        true
    }

    fn get(&self, key: &str) -> (r: AdapterResult<Option<Secret>>)
        ensures
            self.may_get(key@, r),
    ;

    fn set(&self, key: &str, value: Secret) -> (r: AdapterResult<()>)
        ensures
            self.may_set(key@, value@, r),
    ;
}

} // verus!
