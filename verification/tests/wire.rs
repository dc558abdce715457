use yardmaster::client::{accept, Client};
use yardmaster::ipc::{EventMsg, Hello, HelloFrame, Method, Request, Response, PROTO_VERSION};
use yardmaster::json::{Fields, Json};
use yardmaster::server::{
    answer, greeting, json_line, salvage_id, serve_step, Connection, Handler, LineStep, Received,
    ServeEvent, ServeStep,
};

struct StubHandler;

impl Handler for StubHandler {
    fn handle(&self, method: &Method) -> Result<Json, String> {
        match method {
            Method::Ping => Ok(pong()),
            Method::Status => Ok(Fields::new().with("items", Json::List(Vec::new())).done()),
            Method::Shutdown => Ok(Json::Null),
            Method::Subscribe => Err("subscribe must be intercepted by the server".into()),
        }
    }
}

fn pong() -> Json {
    Fields::new().with("pong", Json::Bool(true)).done()
}

/// What parsing a line as a request gives.
fn parse(line: &str) -> Result<Request, String> {
    let v: serde_json::Value = serde_json::from_str(line).map_err(|e| e.to_string())?;
    let id = v["id"].as_u64().ok_or("missing field `id`")?;
    let name = v["method"].as_str().ok_or("missing field `method`")?;
    let method = Method::parse(name).ok_or(format!("unknown variant `{name}`"))?;
    Ok(Request {
        id,
        method,
        params: None,
    })
}

/// Sends a line and returns the response.
fn send(connection: &mut Connection, line: &str) -> Option<Response> {
    match connection.on_line(line, parse(line)) {
        LineStep::Skip => None,
        LineStep::Respond(r) => Some(r),
        LineStep::Ask(id, method) => Some(answer(id, StubHandler.handle(&method))),
    }
}

fn request(connection: &mut Connection, id: u64, method: &str) -> Response {
    send(
        connection,
        &format!(r#"{{"id":{id},"method":"{method}"}}"#),
    )
    .expect("response")
}

#[test]
fn clients_get_hello_and_responses() {
    let hello = greeting("0.0.1", 77);
    assert_eq!(hello.hello.proto, PROTO_VERSION);
    assert_eq!(hello.hello.version, "0.0.1");
    assert_eq!(hello.hello.pid, 77);

    let (mut c1, mut c2) = (Connection::new(), Connection::new());
    assert_eq!(request(&mut c1, 1, "ping"), Response::ok(1, pong()));
    assert_eq!(
        request(&mut c2, 2, "status"),
        Response::ok(
            2,
            Fields::new().with("items", Json::List(Vec::new())).done()
        )
    );
}

#[test]
fn subscribed_connections_get_events_and_responses() {
    let mut client = Connection::new();
    assert_eq!(
        request(&mut client, 1, "subscribe"),
        Response::ok(
            1,
            Fields::new().with("subscribed", Json::Bool(true)).done()
        )
    );
    assert!(client.subscribed);

    let event = || EventMsg {
        event: "item_updated".into(),
        payload: Fields::new().with("id", Json::from_i64(7)).done(),
    };
    assert_eq!(client.on_event(Received::Event(event())), Some(event()));
    assert_eq!(client.on_event(Received::Lagged), None);
    assert!(client.subscribed);

    // The connection still answers requests while subscribed.
    assert_eq!(request(&mut client, 2, "ping"), Response::ok(2, pong()));

    assert_eq!(client.on_event(Received::Closed), None);
    assert!(!client.subscribed);
}

#[test]
fn malformed_lines_yield_errors_and_connections_survive() {
    let mut client = Connection::new();

    let resp = send(&mut client, "this is not json").expect("response");
    assert_eq!(resp.id, 0);
    assert!(resp.result.is_err(), "malformed line must yield ok:false");

    // Parseable JSON but invalid request: the id is salvaged.
    let resp = send(&mut client, r#"{"id":9,"method":"reboot"}"#).expect("response");
    assert_eq!(resp.id, 9);
    match resp.result {
        Err(m) => assert!(m.starts_with("invalid request: "), "{m}"),
        Ok(_) => panic!("accepted"),
    }

    assert_eq!(request(&mut client, 3, "ping"), Response::ok(3, pong()));
    assert!(send(&mut client, "  \t").is_none());
}

#[test]
fn ids_are_salvaged_where_they_can_be() {
    assert_eq!(salvage_id(r#"{"id":12}"#), 12);
    assert_eq!(salvage_id(r#"{"id":-1}"#), 0);
    assert_eq!(salvage_id(r#"{"id":"12"}"#), 0);
    assert_eq!(salvage_id("[12]"), 0);
    assert_eq!(salvage_id("{"), 0);
    assert_eq!(
        salvage_id(r#"{"id":18446744073709551615}"#),
        18446744073709551615
    );
}

#[test]
fn the_flag_stops_the_server() {
    assert_eq!(serve_step(ServeEvent::Accepted), ServeStep::Spawn);
    assert_eq!(serve_step(ServeEvent::AcceptFailed), ServeStep::GoOn);
    assert_eq!(serve_step(ServeEvent::ConnectionEnded), ServeStep::GoOn);
    assert_eq!(
        serve_step(ServeEvent::FlagChanged(Some(false))),
        ServeStep::GoOn
    );
    assert_eq!(
        serve_step(ServeEvent::FlagChanged(Some(true))),
        ServeStep::Stop
    );
    assert_eq!(serve_step(ServeEvent::FlagChanged(None)), ServeStep::Stop);
}

#[test]
fn lines_end_in_a_newline() {
    assert_eq!(json_line(vec![b'{', b'}']), b"{}\n".to_vec());
}

#[test]
fn clients_check_greetings() {
    let frame = |proto: u32| {
        Some(HelloFrame {
            hello: Hello {
                version: "9".to_owned(),
                proto,
                pid: 5,
            },
        })
    };
    let client = match Client::connect(frame(1)) {
        Ok(client) => client,
        Err(e) => panic!("{e}"),
    };
    assert_eq!(client.daemon_pid, 5);
    match Client::connect(frame(2)) {
        Err(m) => assert_eq!(
            m,
            "daemon (pid 5) speaks protocol v2; this client expects v1 — restart the daemon \
             after upgrading"
        ),
        Ok(_) => panic!("accepted"),
    }
    match Client::connect(None) {
        Err(m) => assert_eq!(m, "daemon closed the connection before greeting"),
        Ok(_) => panic!("accepted"),
    }
}

#[test]
fn clients_match_answers_to_requests() {
    let mut client = match Client::connect(Some(greeting("0", 1))) {
        Ok(client) => client,
        Err(e) => panic!("{e}"),
    };
    let first = client.request(Method::Ping);
    let second = client.request(Method::Status);
    assert_eq!((first.id, second.id), (1, 2));
    assert_eq!(
        accept(1, Method::Ping, Some(Response::ok(1, pong()))),
        Ok(pong())
    );
    assert_eq!(
        accept(1, Method::Ping, Some(Response::ok(2, pong()))),
        Err("daemon answered request 2 instead of 1".to_owned())
    );
    assert_eq!(
        accept(1, Method::Status, Some(Response::err(1, "boom".to_owned()))),
        Err("daemon refused status: boom".to_owned())
    );
    assert_eq!(
        accept(1, Method::Shutdown, None),
        Err("daemon closed the connection before answering shutdown".to_owned())
    );
}
