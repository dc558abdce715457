//! What the daemon and its clients say to each other.

use crate::adapters;
use crate::adapters::{AdapterErrorView, PrDraftView};
use crate::client;
use crate::ipc;
use crate::ipc::{
    DaemonInfo, HelloFrame, Method, RawResponseView, Request, ResponseView, StatusReport,
    WorkItemStatus,
};
use crate::json;
use crate::json::JsonView;
use crate::laws::json::{holds, lemma_holds};
use crate::laws::text as text_laws;
use crate::server;
use crate::server::{LineStep, ServeEvent};
use crate::text;
use vstd::prelude::*;
use vstd::string::*;

verus! {

// ---------------------------------------------------------------------------
// Drafts

/// A draft is written with every one of its parts under the part's own name.
pub proof fn lemma_draft_is_written(d: PrDraftView)
    ensures
        holds(adapters::draft_json(d), "repo"@, JsonView::Str(d.repo)),
        holds(adapters::draft_json(d), "title"@, JsonView::Str(d.title)),
        holds(adapters::draft_json(d), "body"@, JsonView::Str(d.body)),
        holds(adapters::draft_json(d), "base"@, JsonView::Str(d.base)),
        holds(adapters::draft_json(d), "head"@, JsonView::Str(d.head)),
        holds(adapters::draft_json(d), "draft"@, JsonView::Bool(d.draft)),
{
    let fields = adapters::draft_json(d)->Object_0;
    lemma_holds(fields, 0);
    lemma_holds(fields, 1);
    lemma_holds(fields, 2);
    lemma_holds(fields, 3);
    lemma_holds(fields, 4);
    lemma_holds(fields, 5);
}

/// A draft is read from the members of its parts, and from nothing else.
pub proof fn lemma_draft_is_read(j: JsonView, d: PrDraftView)
    requires
        j is Object,
        adapters::draft_of(j) == Ok::<PrDraftView, Seq<char>>(d),
    ensures
        json::member(j, "repo"@) == Some(JsonView::Str(d.repo)),
        json::member(j, "title"@) == Some(JsonView::Str(d.title)),
        json::member(j, "body"@) == Some(JsonView::Str(d.body)),
        json::member(j, "base"@) == Some(JsonView::Str(d.base)),
        json::member(j, "head"@) == Some(JsonView::Str(d.head)),
        json::member(j, "draft"@) == Some(JsonView::Bool(d.draft)),
{
    let parts = Seq::new(6, |i: int| json::member(j, adapters::draft_fields()[i]));
    assert(parts[0] == json::member(j, "repo"@));
    assert(parts[1] == json::member(j, "title"@));
    assert(parts[2] == json::member(j, "body"@));
    assert(parts[3] == json::member(j, "base"@));
    assert(parts[4] == json::member(j, "head"@));
    assert(parts[5] == json::member(j, "draft"@));
}

/// A draft is no draft where a part is missing.
pub proof fn lemma_parts_are_needed(j: JsonView)
    requires
        j is Object,
        json::member(j, "repo"@) is None || json::member(j, "title"@) is None || json::member(
            j,
            "body"@,
        ) is None || json::member(j, "base"@) is None || json::member(j, "head"@) is None
            || json::member(j, "draft"@) is None,
    ensures
        adapters::draft_of(j) is Err,
{
    if let Ok(d) = adapters::draft_of(j) {
        lemma_draft_is_read(j, d);
    }
}

/// An error says whether it may pass, and what happened.
pub proof fn lemma_adapter_messages(m: Seq<char>)
    ensures
        text::opens_with(adapters::adapter_message(AdapterErrorView::Transient(m)), "transient"@),
        text::opens_with(adapters::adapter_message(AdapterErrorView::Permanent(m)), "permanent"@),
        text::closes_with(adapters::adapter_message(AdapterErrorView::Transient(m)), m),
        text::closes_with(adapters::adapter_message(AdapterErrorView::Permanent(m)), m),
{
    reveal_strlit("transient");
    reveal_strlit("permanent");
    reveal_strlit("transient adapter error: ");
    reveal_strlit("permanent adapter error: ");
    let a = "transient adapter error: "@;
    let b = "permanent adapter error: "@;
    assert((a + m).take(9) == "transient"@);
    assert((b + m).take(9) == "permanent"@);
    assert((a + m).skip(a.len() as int) == m);
    assert((b + m).skip(b.len() as int) == m);
}

// ---------------------------------------------------------------------------
// Messages

/// Requests go by their own names.
pub proof fn lemma_method_names()
    ensures
        ipc::method_text(Method::Ping) == "ping"@,
        ipc::method_text(Method::Status) == "status"@,
        ipc::method_text(Method::Subscribe) == "subscribe"@,
        ipc::method_text(Method::Shutdown) == "shutdown"@,
{
}

/// A name that is read as a request is that request's name.
pub proof fn lemma_method_is_named(s: Seq<char>)
    ensures
        ipc::method_named(s) matches Some(m) ==> ipc::method_text(m) == s,
        ipc::method_named(s) is None ==> s != "ping"@ && s != "status"@ && s != "subscribe"@ && s
            != "shutdown"@,
{
}

/// A response goes out with its id, with data where it succeeded and with an
/// error where it failed, and never with both.
pub proof fn lemma_response_is_sent(r: ResponseView)
    ensures
        ipc::raw_of(r).id == r.id,
        ipc::raw_of(r).ok <==> r.result is Ok,
        r.result matches Ok(data) ==> ipc::raw_of(r).data == Some(data) && ipc::raw_of(
            r,
        ).error is None,
        r.result matches Err(e) ==> ipc::raw_of(r).error == Some(e) && ipc::raw_of(r).data is None,
{
}

/// A response is taken as what it says, where it does not say two things: a
/// success without data has none, a failure must say why.
pub proof fn lemma_response_is_taken(raw: RawResponseView)
    ensures
        ipc::response_of(raw) is Err <==> (raw.ok && raw.error is Some) || (!raw.ok && (
        raw.data is Some || raw.error is None)),
        ipc::response_of(raw) matches Ok(r) ==> r.id == raw.id && (raw.ok <==> r.result is Ok) && (
        raw.data matches Some(data) ==> r.result == Ok::<JsonView, Seq<char>>(data)) && (raw.ok
            && raw.data is None ==> r.result == Ok::<JsonView, Seq<char>>(JsonView::Null)) && (
        raw.error matches Some(e) ==> r.result == Err::<JsonView, Seq<char>>(e)),
{
}

/// The status of a work item shows what it is about, where it stands, and what
/// waits for a human.
pub proof fn lemma_item_status_is_written(w: WorkItemStatus)
    ensures
        holds(ipc::item_json(w), "id"@, JsonView::Int(w.id as int)),
        holds(ipc::item_json(w), "ticket"@, JsonView::Str(w.ticket@)),
        holds(ipc::item_json(w), "repo"@, JsonView::Str(w.repo@)),
        holds(ipc::item_json(w), "state"@, JsonView::Str(w.state@)),
        holds(ipc::item_json(w), "pending_gates"@, JsonView::Int(w.pending_gates as int)),
        w.agent matches Some(a) ==> holds(ipc::item_json(w), "agent"@, JsonView::Str(a@)),
        w.agent is None ==> holds(ipc::item_json(w), "agent"@, JsonView::Null),
        w.mergeable matches Some(m) ==> holds(ipc::item_json(w), "mergeable"@, JsonView::Bool(m)),
        w.mergeable is None ==> holds(ipc::item_json(w), "mergeable"@, JsonView::Null),
{
    let fields = ipc::item_json(w)->Object_0;
    lemma_holds(fields, 0);
    lemma_holds(fields, 1);
    lemma_holds(fields, 2);
    lemma_holds(fields, 3);
    lemma_holds(fields, 4);
    lemma_holds(fields, 5);
    lemma_holds(fields, 6);
}

/// The daemon shows who it is, since when it runs, and where its state lies.
pub proof fn lemma_daemon_is_written(d: DaemonInfo)
    ensures
        holds(ipc::daemon_json(d), "version"@, JsonView::Str(d.version@)),
        holds(ipc::daemon_json(d), "pid"@, JsonView::Int(d.pid as int)),
        holds(ipc::daemon_json(d), "started_at"@, JsonView::Str(d.started_at@)),
        holds(ipc::daemon_json(d), "state_dir"@, JsonView::Str(d.state_dir@)),
{
    let fields = ipc::daemon_json(d)->Object_0;
    lemma_holds(fields, 0);
    lemma_holds(fields, 1);
    lemma_holds(fields, 2);
    lemma_holds(fields, 3);
}

/// A report shows the daemon and every item, in order.
pub proof fn lemma_report_is_written(r: StatusReport)
    ensures
        holds(ipc::report_json(r), "daemon"@, ipc::daemon_json(r.daemon)),
        exists|items: Seq<JsonView>| #[trigger]
            holds(ipc::report_json(r), "items"@, JsonView::List(items)) && items.len()
                == r.items@.len() && forall|i: int|
                0 <= i < items.len() ==> #[trigger] items[i] == ipc::item_json(r.items@[i]),
{
    let fields = ipc::report_json(r)->Object_0;
    lemma_holds(fields, 0);
    lemma_holds(fields, 1);
    let items = Seq::new(r.items@.len(), |i: int| ipc::item_json(r.items@[i]));
    assert(holds(ipc::report_json(r), "items"@, JsonView::List(items)));
}

// ---------------------------------------------------------------------------
// The server

/// A request that the server does not answer itself is handed on, with its id
/// and its method.
pub proof fn lemma_requests_are_handed_on(
    subscribed: bool,
    line: Seq<char>,
    request: Request,
    id: u64,
    step: LineStep,
    after: bool,
)
    requires
        server::line_outcome(subscribed, line, Ok(request), id, step, after),
        !text_laws::all_chars(line, text::white()),
        !(request.method is Subscribe),
    ensures
        step matches LineStep::Ask(asked, method) && asked == request.id && method
            == request.method,
        after == subscribed,
{
    text_laws::lemma_trimmed_to_nothing(line);
}

/// A subscription is confirmed under its id and holds from then on.
pub proof fn lemma_subscription_is_confirmed(
    subscribed: bool,
    line: Seq<char>,
    request: Request,
    id: u64,
    step: LineStep,
    after: bool,
)
    requires
        server::line_outcome(subscribed, line, Ok(request), id, step, after),
        !text_laws::all_chars(line, text::white()),
        request.method is Subscribe,
    ensures
        after,
        step matches LineStep::Respond(r) && r@.id == request.id && (r@.result matches Ok(data)
            && holds(data, "subscribed"@, JsonView::Bool(true))),
{
    text_laws::lemma_trimmed_to_nothing(line);
    lemma_holds(server::subscribed_json()->Object_0, 0);
}

/// A line that is no request is answered with an error that says why, and a line
/// of white space not at all.
pub proof fn lemma_other_lines(
    subscribed: bool,
    line: Seq<char>,
    cause: String,
    id: u64,
    step: LineStep,
    after: bool,
)
    requires
        server::line_outcome(subscribed, line, Err(cause), id, step, after),
    ensures
        after == subscribed,
        text_laws::all_chars(line, text::white()) ==> step is Skip,
        !text_laws::all_chars(line, text::white()) ==> (step matches LineStep::Respond(r) && r@.id
            == id && (r@.result matches Err(why) && text::closes_with(why, cause@))),
{
    text_laws::lemma_trimmed_to_nothing(line);
    let front = "invalid request: "@;
    assert((front + cause@).skip(front.len() as int) == cause@);
}

/// The server stops when the flag is raised or gone, and for no other reason.
pub proof fn lemma_server_stops_on_the_flag(event: ServeEvent)
    ensures
        server::serve_outcome(ServeEvent::FlagChanged(Some(true))) is Stop,
        server::serve_outcome(ServeEvent::FlagChanged(None)) is Stop,
        server::serve_outcome(ServeEvent::FlagChanged(Some(false))) is GoOn,
        !(event is FlagChanged) ==> !(server::serve_outcome(event) is Stop),
        server::serve_outcome(event) is Spawn <==> event is Accepted,
{
}

// ---------------------------------------------------------------------------
// The client

/// A client takes up with a daemon that speaks its own version of the protocol
/// and with no other.
pub proof fn lemma_greeting_decides(frame: HelloFrame)
    ensures
        client::greeted(Some(frame)) is Ok <==> frame.hello.proto == 1,
        client::greeted(Some(frame)) matches Ok(pid) ==> pid == frame.hello.pid,
        client::greeted(None) is Err,
{
}

/// A client gets the data of its own request's success, and an error in every
/// other case.
pub proof fn lemma_only_the_own_answer_counts(id: u64, method: Method, r: ResponseView)
    ensures
        client::settled(id, method, Some(r)) matches Ok(data) ==> r.id == id && r.result == Ok::<
            JsonView,
            Seq<char>,
        >(data),
        r.id == id && r.result is Ok ==> client::settled(id, method, Some(r)) is Ok,
        r.id == id && r.result is Err ==> (client::settled(id, method, Some(r)) matches Err(why)
            && text::closes_with(why, r.result->Err_0) && text::has_text(
            why,
            ipc::method_text(method),
        )),
        client::settled(id, method, None) is Err,
{
    if r.id == id && r.result is Err {
        let msg = r.result->Err_0;
        let name = ipc::method_text(method);
        let front = "daemon refused "@ + name + ": "@;
        assert((front + msg).skip(front.len() as int) == msg);
        text::lemma_has_middle("daemon refused "@, name, ": "@ + msg);
        assert("daemon refused "@ + name + (": "@ + msg) == front + msg);
    }
}

/// An answer to another request is refused with both ids.
pub proof fn lemma_foreign_answer_names_both(id: u64, method: Method, r: ResponseView)
    requires
        r.id != id,
    ensures
        client::settled(id, method, Some(r)) matches Err(why) && text::has_text(
            why,
            text::int_text(r.id),
        ) && text::closes_with(why, text::int_text(id as int)),
{
    let (a, b) = (text::int_text(r.id), text::int_text(id as int));
    let front = "daemon answered request "@ + a + " instead of "@;
    assert((front + b).skip(front.len() as int) == b);
    text::lemma_has_middle("daemon answered request "@, a, " instead of "@ + b);
    assert("daemon answered request "@ + a + (" instead of "@ + b) == front + b);
}

/// A value of the wrong type is told with what it is and what it should be.
pub proof fn lemma_mistyped_says_both(j: JsonView, expected: Seq<char>)
    ensures
        text::has_text(adapters::mistyped(j, expected), adapters::unexpected(j)),
        text::closes_with(adapters::mistyped(j, expected), expected),
{
    let u = adapters::unexpected(j);
    let front = "invalid type: "@ + u + ", expected "@;
    assert((front + expected).skip(front.len() as int) == expected);
    text::lemma_has_middle("invalid type: "@, u, ", expected "@ + expected);
    assert("invalid type: "@ + u + (", expected "@ + expected) == front + expected);
}

/// Whether a key names a text of a draft.
pub open spec fn names_text(key: Seq<char>) -> bool {
    key == "repo"@ || key == "title"@ || key == "body"@ || key == "base"@ || key == "head"@
}

proof fn lemma_text_fields(key: Seq<char>)
    requires
        names_text(key),
    ensures
        adapters::draft_fields().contains(key),
        key != "draft"@,
{
    let f = adapters::draft_fields();
    assert(f[0] == "repo"@ && f[1] == "title"@ && f[2] == "body"@ && f[3] == "base"@ && f[4]
        == "head"@);
    reveal_strlit("draft");
    reveal_strlit("repo");
    reveal_strlit("title");
    reveal_strlit("body");
    reveal_strlit("base");
    reveal_strlit("head");
    assert("draft"@[0] == 'd' && "repo"@[0] == 'r' && "title"@[0] == 't' && "body"@[0] == 'b'
        && "base"@[0] == 'b' && "head"@[0] == 'h');
}

/// A draft with a text that is no text, or a flag that is no flag, is no draft,
/// however often and wherever the member stands.
pub proof fn lemma_mistyped_parts_are_refused(
    members: Seq<(Seq<char>, JsonView)>,
    k: int,
)
    requires
        0 <= k < members.len(),
        (names_text(members[k].0) && !(members[k].1 is Str)) || (members[k].0 == "draft"@ && !(
        members[k].1 is Bool)),
    ensures
        adapters::draft_of(JsonView::Object(members)) is Err,
{
    lemma_mistyped_is_found(members, k);
}

proof fn lemma_mistyped_is_found(members: Seq<(Seq<char>, JsonView)>, k: int)
    requires
        0 <= k < members.len(),
        (names_text(members[k].0) && !(members[k].1 is Str)) || (members[k].0 == "draft"@ && !(
        members[k].1 is Bool)),
    ensures
        adapters::first_mistyped(members) is Some,
    decreases members.len(),
{
    if k == 0 {
        if names_text(members[0].0) {
            lemma_text_fields(members[0].0);
        }
    } else {
        assert(members.skip(1)[k - 1] == members[k]);
        lemma_mistyped_is_found(members.skip(1), k - 1);
    }
}

/// A draft written as a list has its six parts in their order, and no more.
pub proof fn lemma_listed_draft(items: Seq<JsonView>)
    ensures
        items.len() != 6 ==> adapters::draft_of(JsonView::List(items)) is Err,
        adapters::draft_of(JsonView::List(items)) matches Ok(d) ==> items.len() == 6 && items[0]
            == JsonView::Str(d.repo) && items[1] == JsonView::Str(d.title) && items[2]
            == JsonView::Str(d.body) && items[3] == JsonView::Str(d.base) && items[4]
            == JsonView::Str(d.head) && items[5] == JsonView::Bool(d.draft),
{
}

} // verus!
