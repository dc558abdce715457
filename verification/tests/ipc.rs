use yardmaster::ipc::{
    DaemonInfo, EventMsg, Method, RawResponse, Request, Response, StatusReport, WorkItemStatus,
    PROTO_VERSION,
};
use yardmaster::json::{Fields, Json};

fn value(j: &Json) -> serde_json::Value {
    match j {
        Json::Null => serde_json::Value::Null,
        Json::Bool(b) => serde_json::Value::Bool(*b),
        Json::Int(n) => serde_json::Value::from(*n as i64),
        Json::Float(s) => serde_json::from_str(s).expect("number"),
        Json::Str(s) => serde_json::Value::String(s.clone()),
        Json::List(v) => serde_json::Value::Array(v.iter().map(value).collect()),
        Json::Object(fields) => serde_json::Value::Object(
            fields.iter().map(|(k, v)| (k.clone(), value(v))).collect(),
        ),
    }
}

fn json(v: &serde_json::Value) -> Json {
    match v {
        serde_json::Value::Null => Json::Null,
        serde_json::Value::Bool(b) => Json::Bool(*b),
        serde_json::Value::Number(n) => match n.as_i64() {
            Some(i) => Json::Int(i as i128),
            None => Json::Float(n.to_string()),
        },
        serde_json::Value::String(s) => Json::Str(s.clone()),
        serde_json::Value::Array(a) => Json::List(a.iter().map(json).collect()),
        serde_json::Value::Object(o) => {
            Json::Object(o.iter().map(|(k, v)| (k.clone(), json(v))).collect())
        }
    }
}

/// The line that the members of a response form.
fn line(raw: &RawResponse) -> String {
    let mut members = vec![format!("\"id\":{}", raw.id), format!("\"ok\":{}", raw.ok)];
    if let Some(data) = &raw.data {
        members.push(format!("\"data\":{}", value(data)));
    }
    if let Some(error) = &raw.error {
        members.push(format!(
            "\"error\":{}",
            serde_json::Value::String(error.clone())
        ));
    }
    format!("{{{}}}", members.join(","))
}

/// The members of a response line.
fn members(line: &str) -> RawResponse {
    let v: serde_json::Value = serde_json::from_str(line).expect("json");
    RawResponse {
        id: v["id"].as_u64().expect("id"),
        ok: v["ok"].as_bool().expect("ok"),
        data: v.get("data").map(json),
        error: v.get("error").and_then(|e| e.as_str()).map(str::to_owned),
    }
}

#[test]
fn methods_serialize_lowercase() {
    for (method, name) in [
        (Method::Ping, "ping"),
        (Method::Status, "status"),
        (Method::Subscribe, "subscribe"),
        (Method::Shutdown, "shutdown"),
    ] {
        assert_eq!(method.as_str(), name);
        assert_eq!(Method::parse(name), Some(method));
    }
    assert!(Method::parse("reboot").is_none());
}

#[test]
fn ok_response_wire_format() {
    let resp = Response::ok(7, Fields::new().with("pong", Json::Bool(true)).done());
    let wire = line(&resp.to_raw());
    assert_eq!(wire, r#"{"id":7,"ok":true,"data":{"pong":true}}"#);
    assert_eq!(Response::from_raw(members(&wire)).unwrap(), resp);
}

#[test]
fn error_response_wire_format() {
    let resp = Response::err(8, "boom".to_owned());
    let wire = line(&resp.to_raw());
    assert_eq!(wire, r#"{"id":8,"ok":false,"error":"boom"}"#);
    assert_eq!(Response::from_raw(members(&wire)).unwrap(), resp);
}

#[test]
fn error_response_without_message_is_rejected() {
    assert!(Response::from_raw(members(r#"{"id":1,"ok":false}"#)).is_err());
}

#[test]
fn mixed_responses_are_rejected() {
    assert_eq!(
        Response::from_raw(members(r#"{"id":1,"ok":true,"error":"x"}"#)),
        Err("ok response must not carry `error`".to_owned())
    );
    assert_eq!(
        Response::from_raw(members(r#"{"id":1,"ok":false,"data":1}"#)),
        Err("error response must not carry `data`".to_owned())
    );
    assert_eq!(
        Response::from_raw(members(r#"{"id":1,"ok":false}"#)),
        Err("missing field `error`".to_owned())
    );
    // A success may come without data.
    assert_eq!(
        Response::from_raw(members(r#"{"id":1,"ok":true}"#)),
        Ok(Response::ok(1, Json::Null))
    );
}

#[test]
fn status_report_has_the_documented_shape() {
    let report = StatusReport {
        daemon: DaemonInfo {
            version: "0.0.1".into(),
            pid: 99,
            started_at: "2026-09-22T10:00:00Z".into(),
            state_dir: "/tmp/state".into(),
        },
        items: vec![WorkItemStatus {
            id: 1,
            ticket: "ZEE-12".into(),
            repo: "backend".into(),
            state: "Developing".into(),
            agent: None,
            pending_gates: 2,
            mergeable: Some(false),
        }],
    };
    let v = value(&report.to_json());
    assert_eq!(v["daemon"]["pid"], 99);
    assert_eq!(v["daemon"]["version"], "0.0.1");
    assert_eq!(v["daemon"]["started_at"], "2026-09-22T10:00:00Z");
    assert_eq!(v["daemon"]["state_dir"], "/tmp/state");
    assert_eq!(v["items"][0]["id"], 1);
    assert_eq!(v["items"][0]["ticket"], "ZEE-12");
    assert_eq!(v["items"][0]["repo"], "backend");
    assert_eq!(v["items"][0]["state"], "Developing");
    assert!(v["items"][0]["agent"].is_null());
    assert_eq!(v["items"][0]["pending_gates"], 2);
    assert_eq!(v["items"][0]["mergeable"], false);
    assert_eq!(PROTO_VERSION, 1);
}

#[test]
fn json_members_are_found_and_copied() {
    let j = Fields::new()
        .with("a", Json::List(vec![Json::Null, Json::from_u64(3)]))
        .with("b", Json::Float("1.5".to_owned()))
        .done();
    assert_eq!(j.get("b"), Some(&Json::Float("1.5".to_owned())));
    assert_eq!(j.get("c"), None);
    assert_eq!(Json::Null.get("a"), None);
    assert_eq!(j.clone(), j);
    assert_eq!(Json::opt_text(&None), Json::Null);
    assert_eq!(Json::opt_i32(Some(-1)), Json::Int(-1));
    assert_eq!(Json::opt_bool(None), Json::Null);
    assert_eq!(
        Json::strings(&vec!["x".to_owned()]),
        Json::List(vec![Json::text("x")])
    );
}

#[test]
fn messages_are_cloned_whole() {
    let request = Request {
        id: 42,
        method: Method::Status,
        params: Some(Json::text("x")),
    };
    assert_eq!(request.clone(), request);
    for response in [
        Response::ok(7, Json::text("pong")),
        Response::err(8, "boom".to_owned()),
    ] {
        assert_eq!(response.clone(), response);
    }
    let event = EventMsg {
        event: "item_updated".to_owned(),
        payload: Json::text("y"),
    };
    assert_eq!(event.clone(), event);
}
