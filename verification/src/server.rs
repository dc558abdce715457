//! The daemon's side of the wire.
//!
//! - Every connection is greeted with one line, then every request line gets
//!   one response line.
//! - `subscribe` is answered here and never reaches the [`Handler`]; from then
//!   on every event is written to that connection.
//! - A line that is no request gets an error under its id, where it has one,
//!   and the connection stays usable.
//! - A `shutdown` request stops nothing by itself: its handler raises the
//!   shutdown flag, and [`serve_step`] stops on the flag.

use crate::ipc::{
    EventMsg, Hello, HelloFrame, Method, Request, Response, ResponseView, PROTO_VERSION,
};
use crate::json::{Fields, Json, JsonView};
use crate::text;
use crate::text::{chars_of, trim};
use vstd::prelude::*;
use vstd::string::*;

verus! {

pub trait Handler: Send + Sync + 'static {
    /// Answers one request with data or with an error message.
    fn handle(&self, method: &Method) -> Result<Json, String>;
}

/// The greeting of a connection.
pub fn greeting(version: &str, pid: u32) -> (r: HelloFrame)
    ensures
        r.hello.version@ == version@,
        r.hello.proto == PROTO_VERSION,
        r.hello.pid == pid,
{
    HelloFrame { hello: Hello { version: version.to_owned(), proto: PROTO_VERSION, pid } }
}

/// A document as a line.
pub fn json_line(document: Vec<u8>) -> (r: Vec<u8>)
    ensures
        r@ == document@.push(10),
{
    let mut line = document;
    line.push(10);
    line
}

// ---------------------------------------------------------------------------
// Connections

/// The unsigned integer under a key of a JSON document that is an object, as
/// `serde_json` reads it.
pub uninterp spec fn unsigned_member(document: Seq<char>, key: Seq<char>) -> Option<u64>;

/// `serde_json::from_str` into a `serde_json::Value`, then `Value::get` and
/// `Value::as_u64`: a value where the document parses, is an object and holds
/// an unsigned integer under the key. Named [`unsigned_member`].
#[verifier::external_body]
fn parse_unsigned_member(document: &str, key: &str) -> (r: Option<u64>)
    ensures
        r == unsigned_member(document@, key@),
{
    serde_json::from_str::<serde_json::Value>(document).ok()?.get(key)?.as_u64()
}

/// The id to answer under: the one found, or 0.
pub fn id_or_zero(found: Option<u64>) -> (r: u64)
    ensures
        r == match found {
            Some(id) => id,
            None => 0,
        },
{
    match found {
        Some(id) => id,
        None => 0,
    }
}

/// The id of a line that is no request, so that its error can still be told
/// from others.
pub open spec fn salvaged(line: Seq<char>) -> u64 {
    match unsigned_member(line, "id"@) {
        Some(id) => id,
        None => 0,
    }
}

pub fn salvage_id(line: &str) -> (r: u64)
    ensures
        r == salvaged(line@),
{
    id_or_zero(parse_unsigned_member(line, "id"))
}

/// What a request line asks for.
pub enum LineStep {
    /// A blank line: nothing.
    Skip,
    /// Write this response.
    Respond(Response),
    /// Ask the handler, and write its answer under this id.
    Ask(u64, Method),
}

/// An event stream, as a subscribed connection sees it.
pub enum Received {
    Event(EventMsg),
    /// Events were dropped because the connection was too slow.
    Lagged,
    Closed,
}

/// Data of the response to `subscribe`.
pub open spec fn subscribed_json() -> JsonView {
    JsonView::Object(seq![("subscribed"@, JsonView::Bool(true))])
}

/// The response to a line that is no request.
pub open spec fn rejection(id: u64, cause: Seq<char>) -> ResponseView {
    ResponseView { id: id as int, result: Err("invalid request: "@ + cause) }
}

/// Whether a line is nothing but white space.
pub open spec fn blank(line: Seq<char>) -> bool {
    text::trimmed(line).len() == 0
}

/// What a line leads to, and whether the connection is subscribed after it.
/// `salvaged` is the id of a line that is no request.
pub open spec fn line_outcome(
    subscribed: bool,
    line: Seq<char>,
    parsed: Result<Request, String>,
    salvaged: u64,
    step: LineStep,
    subscribed_after: bool,
) -> bool {
    if blank(line) {
        step is Skip && subscribed_after == subscribed
    } else {
        match parsed {
            Err(cause) => (step matches LineStep::Respond(r) && r@ == rejection(salvaged, cause@))
                && subscribed_after == subscribed,
            Ok(request) => if request.method == Method::Subscribe {
                (step matches LineStep::Respond(r) && r@ == (ResponseView {
                    id: request.id as int,
                    result: Ok(subscribed_json()),
                })) && subscribed_after
            } else {
                (step matches LineStep::Ask(id, method) && id == request.id && method
                    == request.method) && subscribed_after == subscribed
            },
        }
    }
}

/// One connection.
pub struct Connection {
    pub subscribed: bool,
}

impl Connection {
    pub fn new() -> (r: Connection)
        ensures
            !r.subscribed,
    {
        Connection { subscribed: false }
    }

    /// A line of the client, and what parsing it as a request gave.
    pub fn on_line(&mut self, line: &str, parsed: Result<Request, String>) -> (r: LineStep)
        ensures
            line_outcome(
                old(self).subscribed,
                line@,
                parsed,
                salvaged(line@),
                r,
                final(self).subscribed,
            ),
    {
        let id: u64 = match &parsed {
            Ok(_) => 0,
            Err(_) => salvage_id(line),
        };
        self.on_parsed(line, parsed, id)
    }

    /// A line of the client with the id that it was salvaged under, where it is
    /// no request.
    pub fn on_parsed(&mut self, line: &str, parsed: Result<Request, String>, salvaged: u64) -> (r:
        LineStep)
        ensures
            line_outcome(
                old(self).subscribed,
                line@,
                parsed,
                salvaged,
                r,
                final(self).subscribed,
            ),
    {
        if chars_of(trim(line).as_str()).len() == 0 {
            return LineStep::Skip;
        }
        match parsed {
            Err(cause) => LineStep::Respond(
                Response::err(salvaged, "invalid request: ".to_owned().concat(cause.as_str())),
            ),
            Ok(request) => if request.method == Method::Subscribe {
                self.subscribed = true;
                let fields = Fields::new().with("subscribed", Json::Bool(true));
                assert(fields@ == seq![("subscribed"@, JsonView::Bool(true))]);
                LineStep::Respond(Response::ok(request.id, fields.done()))
            } else {
                LineStep::Ask(request.id, request.method)
            },
        }
    }

    /// Something came from the event stream: the event to write, if any. A
    /// stream that ended ends the subscription.
    pub fn on_event(&mut self, received: Received) -> (r: Option<EventMsg>)
        requires
            old(self).subscribed,
        ensures
            match received {
                Received::Event(event) => r == Some(event) && final(self).subscribed,
                Received::Lagged => r is None && final(self).subscribed,
                Received::Closed => r is None && !final(self).subscribed,
            },
    {
        match received {
            Received::Event(event) => Some(event),
            Received::Lagged => None,
            Received::Closed => {
                self.subscribed = false;
                None
            },
        }
    }
}

/// The response that a handler's answer becomes.
pub fn answer(id: u64, result: Result<Json, String>) -> (r: Response)
    ensures
        r@.id == id,
        match (result, r@.result) {
            (Ok(data), Ok(v)) => v == data@,
            (Err(e), Err(v)) => v == e@,
            _ => false,
        },
{
    match result {
        Ok(data) => Response::ok(id, data),
        Err(e) => Response::err(id, e),
    }
}

/// `subscribe` never reaches the handler.
pub proof fn lemma_subscribe_stays_here(
    subscribed: bool,
    line: Seq<char>,
    parsed: Result<Request, String>,
    id: u64,
    step: LineStep,
    after: bool,
)
    requires
        line_outcome(subscribed, line, parsed, id, step, after),
    ensures
        step matches LineStep::Ask(_, method) ==> method != Method::Subscribe,
{
}

/// Every line that is not blank gets one response, under the id of its request
/// where it is one.
pub proof fn lemma_every_line_is_answered(
    subscribed: bool,
    line: Seq<char>,
    parsed: Result<Request, String>,
    id: u64,
    step: LineStep,
    after: bool,
)
    requires
        line_outcome(subscribed, line, parsed, id, step, after),
        !blank(line),
    ensures
        match step {
            LineStep::Skip => false,
            LineStep::Respond(r) => r.id == match parsed {
                Ok(request) => request.id,
                Err(_) => id,
            },
            LineStep::Ask(asked, _) => parsed matches Ok(request) && asked == request.id,
        },
{
}

/// A line that is no request changes nothing about the connection.
pub proof fn lemma_malformed_line_is_harmless(
    subscribed: bool,
    line: Seq<char>,
    parsed: Result<Request, String>,
    id: u64,
    step: LineStep,
    after: bool,
)
    requires
        line_outcome(subscribed, line, parsed, id, step, after),
        parsed is Err,
    ensures
        after == subscribed,
        !(step is Ask),
{
}

// ---------------------------------------------------------------------------
// Accepting connections

/// What the accept loop waits for.
pub enum ServeEvent {
    Accepted,
    AcceptFailed,
    /// The shutdown flag changed to a value, or nobody can raise it any more.
    FlagChanged(Option<bool>),
    ConnectionEnded,
}

#[derive(Debug, Clone, Copy, PartialEq, Eq, Structural)]
pub enum ServeStep {
    /// Serve the accepted connection and go on.
    Spawn,
    GoOn,
    /// End all connections and return.
    Stop,
}

/// Whether the flag says stop: when it is raised, and when nobody is left to
/// raise it.
pub open spec fn stops(flag: Option<bool>) -> bool {
    flag != Some(false)
}

pub open spec fn serve_outcome(event: ServeEvent) -> ServeStep {
    match event {
        ServeEvent::Accepted => ServeStep::Spawn,
        ServeEvent::AcceptFailed => ServeStep::GoOn,
        ServeEvent::ConnectionEnded => ServeStep::GoOn,
        ServeEvent::FlagChanged(flag) => if stops(flag) {
            ServeStep::Stop
        } else {
            ServeStep::GoOn
        },
    }
}

/// A step of the accept loop. A flag that is raised before the loop starts is
/// its first event.
pub fn serve_step(event: ServeEvent) -> (r: ServeStep)
    ensures
        r == serve_outcome(event),
{
    match event {
        ServeEvent::Accepted => ServeStep::Spawn,
        ServeEvent::AcceptFailed => ServeStep::GoOn,
        ServeEvent::ConnectionEnded => ServeStep::GoOn,
        ServeEvent::FlagChanged(flag) => match flag {
            Some(false) => ServeStep::GoOn,
            _ => ServeStep::Stop,
        },
    }
}

} // verus!
