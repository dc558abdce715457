//! The client's side of the wire.

use crate::ipc;
use crate::ipc::{HelloFrame, Method, Request, Response, ResponseView, PROTO_VERSION};
use crate::json::{Json, JsonView};
use crate::text;
use crate::text::{u32_string, u64_string};
use vstd::prelude::*;
use vstd::string::*;

verus! {

/// A greeted connection.
pub struct Client {
    pub next_id: u64,
    /// Taken from the greeting.
    pub daemon_pid: u32,
}

/// The pid behind a greeting, or why it is not to be talked to. No greeting
/// means that the connection was closed.
pub open spec fn greeted(frame: Option<HelloFrame>) -> Result<u32, Seq<char>> {
    match frame {
        None => Err("daemon closed the connection before greeting"@),
        Some(f) => if f.hello.proto != PROTO_VERSION {
            Err(
                "daemon (pid "@ + text::int_text(f.hello.pid as int) + ") speaks protocol v"@
                    + text::int_text(f.hello.proto as int) + "; this client expects v"@
                    + text::int_text(PROTO_VERSION as int)
                    + " — restart the daemon after upgrading"@,
            )
        } else {
            Ok(f.hello.pid)
        },
    }
}

/// What a response to request `id` gives, or why it gives nothing. No response
/// means that the connection was closed.
pub open spec fn settled(id: u64, method: Method, response: Option<ResponseView>) -> Result<
    JsonView,
    Seq<char>,
> {
    match response {
        None => Err(
            "daemon closed the connection before answering "@ + ipc::method_text(method),
        ),
        Some(r) => if r.id != id {
            Err(
                "daemon answered request "@ + text::int_text(r.id) + " instead of "@
                    + text::int_text(id as int),
            )
        } else {
            match r.result {
                Ok(data) => Ok(data),
                Err(msg) => Err(
                    "daemon refused "@ + ipc::method_text(method) + ": "@ + msg,
                ),
            }
        },
    }
}

impl Client {
    /// Takes the greeting of a new connection and checks the protocol version.
    pub fn connect(frame: Option<HelloFrame>) -> (r: Result<Client, String>)
        ensures
            match (r, greeted(frame)) {
                (Ok(c), Ok(pid)) => c.next_id == 1 && c.daemon_pid == pid,
                (Err(a), Err(b)) => a@ == b,
                _ => false,
            },
    {
        let hello = match frame {
            None => return Err("daemon closed the connection before greeting".to_owned()),
            Some(f) => f.hello,
        };
        if hello.proto != PROTO_VERSION {
            return Err(
                "daemon (pid ".to_owned().concat(u32_string(hello.pid).as_str()).concat(
                    ") speaks protocol v",
                ).concat(u32_string(hello.proto).as_str()).concat(
                    "; this client expects v",
                ).concat(u32_string(PROTO_VERSION).as_str()).concat(
                    " — restart the daemon after upgrading",
                ),
            );
        }
        Ok(Client { next_id: 1, daemon_pid: hello.pid })
    }

    /// The next request. Every request of a connection has an id of its own.
    pub fn request(&mut self, method: Method) -> (r: Request)
        requires
            old(self).next_id < u64::MAX,
        ensures
            r.id == old(self).next_id,
            r.method == method,
            r.params is None,
            final(self).next_id == old(self).next_id + 1,
            final(self).daemon_pid == old(self).daemon_pid,
    {
        let id: u64 = self.next_id;
        self.next_id = id + 1;
        Request { id, method, params: None }
    }
}

/// Takes the response to request `id`.
pub fn accept(id: u64, method: Method, response: Option<Response>) -> (r: Result<Json, String>)
    ensures
        match (
            r,
            settled(
                id,
                method,
                match response {
                    Some(x) => Some(x@),
                    None => None,
                },
            ),
        ) {
            (Ok(a), Ok(b)) => a@ == b,
            (Err(a), Err(b)) => a@ == b,
            _ => false,
        },
{
    let response = match response {
        None => return Err(
            "daemon closed the connection before answering ".to_owned().concat(method.as_str()),
        ),
        Some(r) => r,
    };
    if response.id != id {
        return Err(
            "daemon answered request ".to_owned().concat(
                u64_string(response.id).as_str(),
            ).concat(" instead of ").concat(u64_string(id).as_str()),
        );
    }
    match response.result {
        Ok(data) => Ok(data),
        Err(msg) => Err(
            "daemon refused ".to_owned().concat(method.as_str()).concat(": ").concat(msg.as_str()),
        ),
    }
}

/// Only a response under the request's own id is ever taken for its answer.
pub proof fn lemma_foreign_answer_is_refused(id: u64, method: Method, r: ResponseView)
    requires
        r.id != id,
    ensures
        settled(id, method, Some(r)) is Err,
{
}

/// What the daemon answers to a request is what the client gets, over the wire
/// and back.
pub proof fn lemma_answer_arrives(id: u64, method: Method, result: Result<JsonView, Seq<char>>)
    ensures
        ({
            let sent = ResponseView { id: id as int, result };
            &&& ipc::response_of(ipc::raw_of(sent)) matches Ok(arrived) && settled(
                id,
                method,
                Some(arrived),
            ) == match result {
                Ok(data) => Ok::<JsonView, Seq<char>>(data),
                Err(msg) => Err("daemon refused "@ + ipc::method_text(method) + ": "@ + msg),
            }
        }),
{
}

} // verus!
