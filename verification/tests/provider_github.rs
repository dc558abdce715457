use yardmaster::adapters::{AdapterError, Secret, Ticket, TicketKey, TrackerTransition};
use yardmaster::json::{Fields, Json};
use yardmaster::provider_github::{
    available_transitions, classify, invalid_page, lost, parse_next_link, snippet, split_ref,
    GithubProvider, Issue, Scan, ScanStep,
};
use yardmaster::rest::{HttpMethod, HttpReply};

const TOKEN: &str = "s3cr3t-t0ken";

fn provider(uri: &str, repos: &[&str]) -> GithubProvider {
    GithubProvider::new(
        "gh".to_string(),
        uri.to_string(),
        Secret::new(TOKEN.to_string()),
        "octocat".to_string(),
        repos.iter().map(|s| s.to_string()).collect(),
    )
}

fn key(k: &str) -> TicketKey {
    TicketKey {
        provider: "gh".to_string(),
        key: k.to_string(),
    }
}

fn issue(number: u64, state: &str, body: Option<&str>) -> Issue {
    Issue {
        number,
        title: format!("Issue {number}"),
        body: body.map(str::to_owned),
        state: state.to_owned(),
        assignee: Some("octocat".to_owned()),
        html_url: format!("https://example.test/issues/{number}"),
        pull_request: false,
    }
}

fn reply(status: u16, remaining: Option<&str>, body: &str) -> HttpReply {
    HttpReply {
        status,
        remaining: remaining.map(str::to_owned),
        link: None,
        body: body.to_owned(),
    }
}

fn next(step: ScanStep) -> Scan {
    match step {
        ScanStep::Get(scan) => scan,
        ScanStep::Done(_) => panic!("scan ended early"),
    }
}

fn done(step: ScanStep) -> Vec<Ticket> {
    match step {
        ScanStep::Done(tickets) => tickets,
        ScanStep::Get(scan) => panic!("scan goes on with {}", scan.url),
    }
}

#[test]
fn my_tickets_scans_repos_paginates_and_skips_prs() {
    let uri = "http://api.test";
    let p = provider(uri, &["a/one", "b/two"]);

    let mut pr_item = issue(2, "open", None);
    pr_item.pull_request = true;

    // Repo a/one, page 1: one issue + one PR item, Link to page 2.
    let scan = next(p.my_tickets());
    assert_eq!(
        scan.url,
        format!("{uri}/repos/a/one/issues?assignee=octocat&state=open&per_page=100")
    );
    let link = format!(
        "<{uri}/repos/a/one/issues?page=2>; rel=\"next\", \
         <{uri}/repos/a/one/issues?page=2>; rel=\"last\""
    );
    let scan = next(p.my_tickets_page(scan, vec![issue(1, "open", None), pr_item], Some(link)));
    // Repo a/one, page 2.
    assert_eq!(scan.url, format!("{uri}/repos/a/one/issues?page=2"));
    let scan = next(p.my_tickets_page(scan, vec![issue(3, "open", None)], None));
    // Repo b/two: single page.
    assert_eq!(
        scan.url,
        format!("{uri}/repos/b/two/issues?assignee=octocat&state=open&per_page=100")
    );
    let tickets = done(p.my_tickets_page(scan, vec![issue(7, "open", None)], None));

    let keys: Vec<&str> = tickets.iter().map(|t| t.key.key.as_str()).collect();
    assert_eq!(keys, ["a/one#1", "a/one#3", "b/two#7"]);
    assert!(tickets.iter().all(|t| t.key.provider == "gh"));
    assert!(tickets.iter().all(|t| t.status == "open"));
    assert!(tickets
        .iter()
        .all(|t| t.assignee.as_deref() == Some("octocat")));
    // Null body → empty string, no blocked_by.
    assert_eq!(tickets[0].body, "");
    assert!(tickets[0].blocked_by.is_empty());
}

#[test]
fn no_repos_means_no_requests() {
    assert!(done(provider("http://x", &[]).my_tickets()).is_empty());
}

#[test]
fn get_maps_issue_and_extracts_blocked_by() {
    let body = "Intro line\n\
                blocked BY #2\n\
                Blocked by b/two#9\n\
                BLOCKED BY x/y#3\n\
                not Blocked by #4\n\
                Blocked by nothing\n\
                Blocked by #bad";
    let mut given = issue(5, "open", Some(body));
    given.assignee = None;
    let p = provider("http://api.test/", &[]);
    let request = p.get(&key("a/one#5")).unwrap();
    assert_eq!(request.url, "http://api.test/repos/a/one/issues/5");
    assert_eq!(request.method, HttpMethod::Get);
    assert!(request
        .headers
        .contains(&("Authorization".to_owned(), format!("Bearer {TOKEN}"))));

    let ticket = p.get_done(&key("a/one#5"), &given);
    assert_eq!(ticket.key, key("a/one#5"));
    assert_eq!(ticket.title, "Issue 5");
    assert_eq!(ticket.body, body);
    assert_eq!(ticket.assignee, None);
    assert_eq!(ticket.url, "https://example.test/issues/5");
    assert_eq!(
        ticket.blocked_by,
        vec![key("a/one#2"), key("b/two#9"), key("x/y#3")]
    );
}

#[test]
fn get_rejects_malformed_keys() {
    let p = provider("http://127.0.0.1:1", &[]);
    for bad in ["nonsense", "a/one#x", "one#5", "a/one", "/one#5", "a/#5"] {
        let err = p.get(&key(bad)).unwrap_err();
        assert!(
            matches!(err, AdapterError::Permanent(_)),
            "{bad}: expected Permanent, got {err:?}"
        );
    }
    assert_eq!(
        p.get(&key("a\"b")).unwrap_err(),
        AdapterError::Permanent(
            "invalid GitHub ticket key \"a\\\"b\": expected owner/repo#N".to_owned()
        )
    );
}

#[test]
fn transitions_follow_issue_state() {
    let p = provider("http://api.test", &[]);
    let open = available_transitions(&p.get_done(&key("a/one#1"), &issue(1, "open", None)));
    assert_eq!(open.len(), 1);
    assert_eq!(open[0].id, "close");

    let closed = available_transitions(&p.get_done(&key("a/one#2"), &issue(2, "closed", None)));
    assert_eq!(closed.len(), 1);
    assert_eq!(closed[0].id, "reopen");

    let other = available_transitions(&p.get_done(&key("a/one#2"), &issue(2, "frozen", None)));
    assert!(other.is_empty());
}

#[test]
fn apply_transition_patches_issue_state() {
    let p = provider("http://api.test", &[]);
    let t = |id: &str, name: &str| TrackerTransition {
        id: id.to_string(),
        name: name.to_string(),
    };
    let close = p
        .apply_transition(&key("a/one#5"), &t("close", "Close"))
        .unwrap();
    assert_eq!(close.method, HttpMethod::Patch);
    assert_eq!(close.url, "http://api.test/repos/a/one/issues/5");
    assert_eq!(
        close.body,
        Some(Fields::new().with("state", Json::text("closed")).done())
    );
    assert!(close
        .headers
        .contains(&("Authorization".to_owned(), format!("Bearer {TOKEN}"))));
    let reopen = p
        .apply_transition(&key("a/one#6"), &t("reopen", "Reopen"))
        .unwrap();
    assert_eq!(
        reopen.body,
        Some(Fields::new().with("state", Json::text("open")).done())
    );

    let err = p
        .apply_transition(&key("a/one#5"), &t("wontfix", "Wontfix"))
        .unwrap_err();
    assert!(matches!(err, AdapterError::Permanent(_)));
    assert!(p.apply_transition(&key("bad"), &t("close", "Close")).is_err());
}

#[test]
fn http_errors_map_per_contract_and_never_leak_token() {
    let p = provider("http://api.test", &[]);
    let err = |n: u64, reply: HttpReply| {
        let request = p.get(&key(&format!("e/one#{n}"))).unwrap();
        classify(request.method, &request.url, &reply).unwrap_err()
    };

    let e500 = err(1, reply(500, None, "boom"));
    assert!(matches!(e500, AdapterError::Transient(_)), "{e500:?}");
    assert!(e500.message().contains("boom"));
    assert_eq!(
        e500,
        AdapterError::Transient(
            "GET http://api.test/repos/e/one/issues/1: HTTP 500 Internal Server Error: boom"
                .to_owned()
        )
    );

    let e404 = err(2, reply(404, None, "gone"));
    assert!(matches!(e404, AdapterError::Permanent(_)), "{e404:?}");
    assert!(e404.message().contains("gone"));

    let e403rl = err(3, reply(403, Some("0"), "rate limited"));
    assert!(matches!(e403rl, AdapterError::Transient(_)), "{e403rl:?}");

    let e403 = err(4, reply(403, None, "forbidden"));
    assert!(matches!(e403, AdapterError::Permanent(_)), "{e403:?}");

    for e in [e500, e404, e403rl, e403] {
        assert!(
            !e.message().contains(TOKEN),
            "token leaked into error: {e:?}"
        );
    }
    assert!(matches!(
        err(5, reply(429, None, "")),
        AdapterError::Transient(_)
    ));
    assert!(matches!(
        err(6, reply(403, Some(" 0 "), "")),
        AdapterError::Transient(_)
    ));
    assert!(classify(HttpMethod::Get, "u", &reply(204, None, "")).is_ok());
}

#[test]
fn failed_exchanges_say_what_was_tried() {
    assert_eq!(
        lost(HttpMethod::Patch, "http://x", "refused"),
        AdapterError::Transient("PATCH http://x: refused".to_owned())
    );
    assert_eq!(
        invalid_page("http://x", "eof"),
        AdapterError::Permanent("GET http://x: invalid JSON: eof".to_owned())
    );
}

#[test]
fn references_split_at_their_marks() {
    assert_eq!(split_ref("a/b#12"), Some(("a/b".to_owned(), 12)));
    assert_eq!(split_ref("a/b/c#12"), None);
    assert_eq!(split_ref("a/b#1#2"), None);
    assert_eq!(split_ref("a/b#18446744073709551616"), None);
}

#[test]
fn long_bodies_are_cut() {
    assert_eq!(snippet("short"), "short");
    let long = "é".repeat(250);
    assert_eq!(snippet(&long), format!("{}…", "é".repeat(200)));
    assert_eq!(snippet(&"x".repeat(200)), "x".repeat(200));
}

#[test]
fn next_links_are_found() {
    assert_eq!(
        parse_next_link("<http://x?page=1>; rel=\"prev\", <http://x?page=3>; REL=\"Next\""),
        Some("http://x?page=3".to_owned())
    );
    assert_eq!(parse_next_link("<http://x>; rel=\"last\""), None);
    assert_eq!(parse_next_link("http://x; rel=\"next\""), None);
    assert_eq!(parse_next_link(""), None);
}

#[test]
fn references_hold_no_white_space() {
    let body = "Blocked by the a/one#5\n\
                Blocked by a/o ne#6\n\
                Blocked by #+8\n\
                Blocked by a/one#+9\n\
                Blocked by a/one#7";
    let p = provider("http://api.test/", &[]);
    let ticket = p.get_done(&key("a/one#5"), &issue(5, "open", Some(body)));
    assert_eq!(ticket.blocked_by, vec![key("a/one#7")]);
    assert!(p.get(&key("the a/one#5")).is_err());
    assert!(p.get(&key("a/one#+5")).is_err());
}
