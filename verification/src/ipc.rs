//! Wire protocol between the daemon and its clients.
//!
//! JSON documents, one per line, over a Unix socket:
//! - greeting on connect: `{"hello":{"version":"0.0.1","proto":1,"pid":123}}`
//! - request: `{"id":1,"method":"ping"}`, with an optional `params`
//! - response: `{"id":1,"ok":true,"data":<value>}` or
//!   `{"id":1,"ok":false,"error":"<msg>"}`
//! - event, on subscribed connections: `{"event":"<kind>","payload":<value>}`

use crate::json;
use crate::json::{Fields, Json, JsonView};
use crate::text;
use crate::text::{copy_opt, text_eq};
use vstd::prelude::*;
use vstd::string::*;

verus! {

/// Version of the protocol, sent in the greeting.
pub const PROTO_VERSION: u32 = 1;

/// Payload of the greeting that every new connection gets.
#[derive(Debug, PartialEq, Eq)]
pub struct Hello {
    pub version: String,
    pub proto: u32,
    pub pid: u32,
}

impl Clone for Hello {
    fn clone(&self) -> (r: Hello)
        ensures
            r == *self,
    {
        Hello { version: self.version.clone(), proto: self.proto, pid: self.pid }
    }
}

/// The greeting line.
#[derive(Debug, PartialEq, Eq)]
pub struct HelloFrame {
    pub hello: Hello,
}

impl Clone for HelloFrame {
    fn clone(&self) -> (r: HelloFrame)
        ensures
            r == *self,
    {
        HelloFrame { hello: self.hello.clone() }
    }
}

/// Client request. No method takes `params` today and clients may omit them.
#[derive(Debug, PartialEq)]
pub struct Request {
    pub id: u64,
    pub method: Method,
    pub params: Option<Json>,
}

impl Clone for Request {
    fn clone(&self) -> (r: Request)
        ensures
            r.id == self.id,
            r.method == self.method,
            match (r.params, self.params) {
                (Some(a), Some(b)) => a@ == b@,
                (None, None) => true,
                _ => false,
            },
    {
        Request {
            id: self.id,
            method: self.method,
            params: match &self.params {
                Some(params) => Some(params.copy()),
                None => None,
            },
        }
    }
}

#[derive(Debug, Clone, Copy, PartialEq, Eq, Structural)]
pub enum Method {
    Ping,
    Status,
    Subscribe,
    Shutdown,
}

pub open spec fn method_text(m: Method) -> Seq<char> {
    match m {
        Method::Ping => "ping"@,
        Method::Status => "status"@,
        Method::Subscribe => "subscribe"@,
        Method::Shutdown => "shutdown"@,
    }
}

/// The method that a text names.
pub open spec fn method_named(s: Seq<char>) -> Option<Method> {
    if s == "ping"@ {
        Some(Method::Ping)
    } else if s == "status"@ {
        Some(Method::Status)
    } else if s == "subscribe"@ {
        Some(Method::Subscribe)
    } else if s == "shutdown"@ {
        Some(Method::Shutdown)
    } else {
        None
    }
}

impl Method {
    pub fn as_str(self) -> (r: &'static str)
        ensures
            r@ == method_text(self),
    {
        match self {
            Method::Ping => "ping",
            Method::Status => "status",
            Method::Subscribe => "subscribe",
            Method::Shutdown => "shutdown",
        }
    }

    /// The method that a text names.
    pub fn parse(s: &str) -> (r: Option<Method>)
        ensures
            r == method_named(s@),
    {
        if text_eq(s, "ping") {
            Some(Method::Ping)
        } else if text_eq(s, "status") {
            Some(Method::Status)
        } else if text_eq(s, "subscribe") {
            Some(Method::Subscribe)
        } else if text_eq(s, "shutdown") {
            Some(Method::Shutdown)
        } else {
            None
        }
    }
}

/// Writing a method and reading it back gives the method.
pub proof fn lemma_method_round_trip(m: Method)
    ensures
        method_named(method_text(m)) == Some(m),
{
    reveal_strlit("ping");
    reveal_strlit("status");
    reveal_strlit("subscribe");
    reveal_strlit("shutdown");
    assert("ping"@.len() == 4 && "status"@.len() == 6);
    assert("subscribe"@.len() == 9 && "shutdown"@.len() == 8);
}

/// Response to a request, under the request's id.
#[derive(Debug, PartialEq)]
pub struct Response {
    pub id: u64,
    pub result: Result<Json, String>,
}

#[verifier::ext_equal]
pub struct ResponseView {
    pub id: int,
    pub result: Result<JsonView, Seq<char>>,
}

impl View for Response {
    type V = ResponseView;

    open spec fn view(&self) -> ResponseView {
        ResponseView {
            id: self.id as int,
            result: match self.result {
                Ok(data) => Ok(data@),
                Err(e) => Err(e@),
            },
        }
    }
}

impl Clone for Response {
    fn clone(&self) -> (r: Response)
        ensures
            r@ == self@,
    {
        Response {
            id: self.id,
            result: match &self.result {
                Ok(data) => Ok(data.copy()),
                Err(e) => Err(e.clone()),
            },
        }
    }
}

/// A response as its members on the wire: `ok` says which of `data` and
/// `error` is there.
#[derive(Debug, PartialEq)]
pub struct RawResponse {
    pub id: u64,
    pub ok: bool,
    pub data: Option<Json>,
    pub error: Option<String>,
}

#[verifier::ext_equal]
pub struct RawResponseView {
    pub id: int,
    pub ok: bool,
    pub data: Option<JsonView>,
    pub error: Option<Seq<char>>,
}

impl View for RawResponse {
    type V = RawResponseView;

    open spec fn view(&self) -> RawResponseView {
        RawResponseView {
            id: self.id as int,
            ok: self.ok,
            data: match self.data {
                Some(d) => Some(d@),
                None => None,
            },
            error: text::opt_text(self.error),
        }
    }
}

/// The members of a response.
pub open spec fn raw_of(r: ResponseView) -> RawResponseView {
    match r.result {
        Ok(data) => RawResponseView { id: r.id, ok: true, data: Some(data), error: None },
        Err(e) => RawResponseView { id: r.id, ok: false, data: None, error: Some(e) },
    }
}

/// The response that members stand for: `data` belongs to a success and may be
/// missing there, `error` belongs to a failure and may not.
pub open spec fn response_of(raw: RawResponseView) -> Result<ResponseView, Seq<char>> {
    if raw.ok {
        if raw.error is Some {
            Err("ok response must not carry `error`"@)
        } else {
            let data = match raw.data {
                Some(d) => d,
                None => JsonView::Null,
            };
            Ok(ResponseView { id: raw.id, result: Ok(data) })
        }
    } else if raw.data is Some {
        Err("error response must not carry `data`"@)
    } else {
        match raw.error {
            Some(e) => Ok(ResponseView { id: raw.id, result: Err(e) }),
            None => Err("missing field `error`"@),
        }
    }
}

impl Response {
    pub fn ok(id: u64, data: Json) -> (r: Response)
        ensures
            r@ == (ResponseView { id: id as int, result: Ok(data@) }),
    {
        Response { id, result: Ok(data) }
    }

    pub fn err(id: u64, error: String) -> (r: Response)
        ensures
            r@ == (ResponseView { id: id as int, result: Err(error@) }),
    {
        Response { id, result: Err(error) }
    }

    /// The members of this response on the wire.
    pub fn to_raw(&self) -> (r: RawResponse)
        ensures
            r@ == raw_of(self@),
    {
        match &self.result {
            Ok(data) => RawResponse {
                id: self.id,
                ok: true,
                data: Some(data.copy()),
                error: None,
            },
            Err(e) => RawResponse { id: self.id, ok: false, data: None, error: Some(e.clone()) },
        }
    }

    /// The response that members on the wire stand for.
    pub fn from_raw(raw: RawResponse) -> (r: Result<Response, String>)
        ensures
            match (r, response_of(raw@)) {
                (Ok(a), Ok(b)) => a@ == b,
                (Err(a), Err(b)) => a@ == b,
                _ => false,
            },
    {
        if raw.ok {
            if raw.error.is_some() {
                return Err("ok response must not carry `error`".to_owned());
            }
            let data = match raw.data {
                Some(d) => d,
                None => Json::Null,
            };
            Ok(Response { id: raw.id, result: Ok(data) })
        } else {
            if raw.data.is_some() {
                return Err("error response must not carry `data`".to_owned());
            }
            match raw.error {
                Some(e) => Ok(Response { id: raw.id, result: Err(e) }),
                None => Err("missing field `error`".to_owned()),
            }
        }
    }
}

/// Every response survives the wire.
pub proof fn lemma_response_round_trip(r: ResponseView)
    ensures
        response_of(raw_of(r)) == Ok::<ResponseView, Seq<char>>(r),
{
}

/// Pushed on subscribed connections, never in reply to an id.
#[derive(Debug, PartialEq)]
pub struct EventMsg {
    pub event: String,
    pub payload: Json,
}

impl Clone for EventMsg {
    fn clone(&self) -> (r: EventMsg)
        ensures
            r.event@ == self.event@,
            r.payload@ == self.payload@,
    {
        EventMsg { event: self.event.clone(), payload: self.payload.copy() }
    }
}

/// Data of a successful `status` response.
#[derive(Debug, PartialEq)]
pub struct StatusReport {
    pub daemon: DaemonInfo,
    pub items: Vec<WorkItemStatus>,
}

impl Clone for StatusReport {
    fn clone(&self) -> (r: StatusReport)
        ensures
            r.daemon == self.daemon,
            r.items@ == self.items@,
    {
        let r = StatusReport { daemon: self.daemon.clone(), items: self.items.clone() };
        assert(r.items@ =~= self.items@);
        r
    }
}

#[derive(Debug, PartialEq, Eq)]
pub struct DaemonInfo {
    pub version: String,
    pub pid: u32,
    /// RFC3339 UTC.
    pub started_at: String,
    pub state_dir: String,
}

impl Clone for DaemonInfo {
    fn clone(&self) -> (r: DaemonInfo)
        ensures
            r == *self,
    {
        DaemonInfo {
            version: self.version.clone(),
            pid: self.pid,
            started_at: self.started_at.clone(),
            state_dir: self.state_dir.clone(),
        }
    }
}

#[derive(Debug, PartialEq, Eq)]
pub struct WorkItemStatus {
    pub id: i64,
    pub ticket: String,
    pub repo: String,
    pub state: String,
    pub agent: Option<String>,
    pub pending_gates: u32,
    pub mergeable: Option<bool>,
}

impl Clone for WorkItemStatus {
    fn clone(&self) -> (r: WorkItemStatus)
        ensures
            r == *self,
    {
        WorkItemStatus {
            id: self.id,
            ticket: self.ticket.clone(),
            repo: self.repo.clone(),
            state: self.state.clone(),
            agent: copy_opt(&self.agent),
            pending_gates: self.pending_gates,
            mergeable: self.mergeable,
        }
    }
}

/// A boolean, or null when absent.
pub open spec fn nullable_bool(b: Option<bool>) -> JsonView {
    match b {
        Some(v) => JsonView::Bool(v),
        None => JsonView::Null,
    }
}

pub open spec fn daemon_json(d: DaemonInfo) -> JsonView {
    JsonView::Object(
        seq![
            ("pid"@, JsonView::Int(d.pid as int)),
            ("started_at"@, JsonView::Str(d.started_at@)),
            ("state_dir"@, JsonView::Str(d.state_dir@)),
            ("version"@, JsonView::Str(d.version@)),
        ],
    )
}

pub open spec fn item_json(w: WorkItemStatus) -> JsonView {
    JsonView::Object(
        seq![
            ("agent"@, json::nullable(text::opt_text(w.agent))),
            ("id"@, JsonView::Int(w.id as int)),
            ("mergeable"@, nullable_bool(w.mergeable)),
            ("pending_gates"@, JsonView::Int(w.pending_gates as int)),
            ("repo"@, JsonView::Str(w.repo@)),
            ("state"@, JsonView::Str(w.state@)),
            ("ticket"@, JsonView::Str(w.ticket@)),
        ],
    )
}

pub open spec fn report_json(r: StatusReport) -> JsonView {
    JsonView::Object(
        seq![
            ("daemon"@, daemon_json(r.daemon)),
            ("items"@, JsonView::List(Seq::new(r.items@.len(), |i: int| item_json(r.items@[i])))),
        ],
    )
}

impl DaemonInfo {
    pub fn to_json(&self) -> (r: Json)
        ensures
            r@ == daemon_json(*self),
    {
        let fields = Fields::new().with("pid", Json::from_u64(self.pid as u64)).with(
            "started_at",
            Json::text(self.started_at.as_str()),
        ).with("state_dir", Json::text(self.state_dir.as_str())).with(
            "version",
            Json::text(self.version.as_str()),
        );
        assert(fields@ == seq![
            ("pid"@, JsonView::Int(self.pid as int)),
            ("started_at"@, JsonView::Str(self.started_at@)),
            ("state_dir"@, JsonView::Str(self.state_dir@)),
            ("version"@, JsonView::Str(self.version@)),
        ]);
        fields.done()
    }
}

impl WorkItemStatus {
    pub fn to_json(&self) -> (r: Json)
        ensures
            r@ == item_json(*self),
    {
        let fields = Fields::new().with("agent", Json::opt_text(&self.agent)).with(
            "id",
            Json::from_i64(self.id),
        ).with("mergeable", Json::opt_bool(self.mergeable)).with(
            "pending_gates",
            Json::from_u64(self.pending_gates as u64),
        ).with("repo", Json::text(self.repo.as_str())).with(
            "state",
            Json::text(self.state.as_str()),
        ).with("ticket", Json::text(self.ticket.as_str()));
        assert(fields@ == seq![
            ("agent"@, json::nullable(text::opt_text(self.agent))),
            ("id"@, JsonView::Int(self.id as int)),
            ("mergeable"@, nullable_bool(self.mergeable)),
            ("pending_gates"@, JsonView::Int(self.pending_gates as int)),
            ("repo"@, JsonView::Str(self.repo@)),
            ("state"@, JsonView::Str(self.state@)),
            ("ticket"@, JsonView::Str(self.ticket@)),
        ]);
        fields.done()
    }
}

impl StatusReport {
    pub fn to_json(&self) -> (r: Json)
        ensures
            r@ == report_json(*self),
    {
        let mut items: Vec<Json> = Vec::new();
        let mut i: usize = 0;
        while i < self.items.len()
            invariant
                i <= self.items@.len(),
                items@.len() == i,
                forall|k: int| 0 <= k < i ==> (#[trigger] items@[k])@ == item_json(self.items@[k]),
            decreases self.items@.len() - i,
        {
            items.push(self.items[i].to_json());
            i = i + 1;
        }
        let ghost list = Seq::new(self.items@.len(), |i: int| item_json(self.items@[i]));
        proof {
            json::lemma_list_view(items@);
            assert(json::list_view(items@) == list);
        }
        let fields = Fields::new().with("daemon", self.daemon.to_json()).with(
            "items",
            Json::List(items),
        );
        assert(fields@ == seq![
            ("daemon"@, daemon_json(self.daemon)),
            ("items"@, JsonView::List(list)),
        ]);
        fields.done()
    }
}

// ---------------------------------------------------------------------------
// Results of the scheduler's commands

#[derive(Debug, PartialEq, Eq)]
pub struct AddResult {
    pub id: i64,
    pub ticket: String,
    pub repo: String,
    pub branch: String,
    pub worktree: String,
    pub state: String,
}

#[derive(Debug, PartialEq)]
pub struct GateInfo {
    pub id: i64,
    pub work_item_id: i64,
    pub ticket: String,
    pub repo: String,
    pub action: String,
    pub created_at: String,
    pub payload: Json,
}

#[derive(Debug, PartialEq)]
pub struct GateList {
    pub gates: Vec<GateInfo>,
}

#[derive(Debug, PartialEq, Eq)]
pub struct ApproveResult {
    pub gate_id: i64,
    pub work_item_id: i64,
    pub action: String,
    pub pr: Option<String>,
    pub state: String,
}

#[derive(Debug, PartialEq, Eq)]
pub struct RejectResult {
    pub gate_id: i64,
    pub work_item_id: i64,
    pub state: String,
}

#[derive(Debug, PartialEq, Eq)]
pub struct LogsResult {
    pub transcript_path: Option<String>,
    pub lines: Vec<String>,
}

} // verus!
