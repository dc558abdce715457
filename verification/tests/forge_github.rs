use yardmaster::adapters::{
    AdapterError, CheckRun, MergeMethod, PrComment, PrDraft, PrRef, Review, Secret,
};
use yardmaster::forge_github::{
    classify, created_pr, invalid_reply, lost, next_link, no_client, page_list, ApiCheckRun,
    ApiComment, ApiReview, ApiUser, GithubForge, Page, Pages, Pull,
};
use yardmaster::json::{Fields, Json};
use yardmaster::rest::{status_text, HttpMethod, HttpReply};

const URI: &str = "http://api.test";

fn forge() -> GithubForge {
    GithubForge::new(format!("{URI}/"), Secret::new("test-token-xyz".into()))
}

fn pr7() -> PrRef {
    PrRef {
        repo: "acme/widgets".into(),
        number: 7,
    }
}

fn draft(title: &str, head: &str, is_draft: bool) -> PrDraft {
    PrDraft {
        repo: "acme/widgets".into(),
        title: title.into(),
        body: "does gizmo".into(),
        base: "main".into(),
        head: head.into(),
        draft: is_draft,
    }
}

fn user(login: &str, kind: &str) -> Option<ApiUser> {
    Some(ApiUser {
        login: login.to_owned(),
        kind: Some(kind.to_owned()),
    })
}

fn pull(state: &str, merged_at: Option<&str>, is_draft: bool, mergeable: Option<bool>) -> Pull {
    Pull {
        state: state.to_owned(),
        merged_at: merged_at.map(str::to_owned),
        draft: is_draft,
        base: "main".to_owned(),
        head_sha: "abc123".to_owned(),
        mergeable,
    }
}

fn comment(id: u64, user: Option<ApiUser>, body: &str, at: &str) -> ApiComment {
    ApiComment {
        id,
        user,
        body: Some(body.to_owned()),
        created_at: at.to_owned(),
    }
}

fn reply(status: u16, remaining: Option<&str>, body: &str) -> HttpReply {
    HttpReply {
        status,
        remaining: remaining.map(str::to_owned),
        link: None,
        body: body.to_owned(),
    }
}

fn said(message: &str) -> Option<String> {
    Some(message.to_owned())
}

fn header(name: &str, value: &str) -> (String, String) {
    (name.to_owned(), value.to_owned())
}

#[test]
fn create_pr_posts_draft_and_returns_ref() {
    let draft = draft("Add gizmo", "feature/gizmo", true);
    let request = forge().create_pr(&draft);
    assert_eq!(request.method, HttpMethod::Post);
    assert_eq!(request.url, format!("{URI}/repos/acme/widgets/pulls"));
    assert!(request
        .headers
        .contains(&header("Authorization", "Bearer test-token-xyz")));
    assert!(request
        .headers
        .contains(&header("Accept", "application/vnd.github+json")));
    assert!(request
        .headers
        .contains(&header("X-GitHub-Api-Version", "2022-11-28")));
    assert_eq!(
        request.body,
        Some(
            Fields::new()
                .with("base", Json::text("main"))
                .with("body", Json::text("does gizmo"))
                .with("draft", Json::Bool(true))
                .with("head", Json::text("feature/gizmo"))
                .with("title", Json::text("Add gizmo"))
                .done()
        )
    );
    assert_eq!(
        created_pr(&draft, 42),
        PrRef {
            repo: "acme/widgets".into(),
            number: 42
        }
    );
}

#[test]
fn create_pr_422_is_permanent_and_never_leaks_token() {
    match classify(
        &reply(422, None, "{\"message\":\"Validation Failed\"}"),
        &said("Validation Failed"),
        "create_pr",
    ) {
        Err(AdapterError::Permanent(msg)) => {
            assert!(msg.contains("Validation Failed"), "message lost: {msg}");
            assert!(!msg.contains("test-token-xyz"), "token leaked: {msg}");
            assert_eq!(
                msg,
                "github 422 Unprocessable Entity during create_pr: Validation Failed"
            );
        }
        other => panic!("expected Permanent, got {other:?}"),
    }
}

#[test]
fn snapshot_assembles_all_endpoints_with_check_run_pagination() {
    let forge = forge();
    assert_eq!(
        forge.pull_url(&pr7()),
        format!("{URI}/repos/acme/widgets/pulls/7")
    );
    let queries = forge.snapshot_queries(&pr7(), "abc123");
    let paths: Vec<&str> = queries.iter().map(|q| q.path.as_str()).collect();
    assert_eq!(
        paths,
        [
            "/repos/acme/widgets/commits/abc123/check-runs",
            "/repos/acme/widgets/pulls/7/reviews",
            "/repos/acme/widgets/issues/7/comments",
            "/repos/acme/widgets/pulls/7/comments",
        ]
    );
    assert_eq!(queries[0].wrapper, Some("check_runs"));
    assert!(queries[1..].iter().all(|q| q.wrapper.is_none()));

    // Check-runs page 1 (first request carries per_page) links to page 2.
    let pages: Pages<ApiCheckRun> = forge.get_paged(&queries[0].path);
    assert_eq!(
        pages.next.as_deref(),
        Some("http://api.test/repos/acme/widgets/commits/abc123/check-runs?per_page=100")
    );
    let link = Some(format!(
        "<{URI}/repos/acme/widgets/commits/abc123/check-runs?page=2>; rel=\"next\""
    ));
    let first = ApiCheckRun {
        name: "ci".into(),
        status: "completed".into(),
        conclusion: Some("success".into()),
        html_url: Some("https://example.test/ci".into()),
    };
    let second = ApiCheckRun {
        name: "lint".into(),
        status: "in_progress".into(),
        conclusion: None,
        html_url: None,
    };
    let pages = pages
        .add_page(&link, Page::Items(vec![first]), queries[0].context)
        .expect("page 1");
    assert_eq!(
        pages.next.as_deref(),
        Some("http://api.test/repos/acme/widgets/commits/abc123/check-runs?page=2")
    );
    let pages = pages
        .add_page(&None, Page::Items(vec![second]), queries[0].context)
        .expect("page 2");
    assert_eq!(pages.next, None);

    let snap = forge.pr_snapshot(
        &pr7(),
        pull("open", None, true, None),
        pages.items,
        vec![ApiReview {
            user: user("alice", "User"),
            state: "APPROVED".into(),
        }],
        // Issue comment: bot by `[bot]` login suffix, later timestamp.
        vec![comment(
            2,
            user("dependabot[bot]", "User"),
            "bump deps",
            "2026-01-02T00:00:00Z",
        )],
        // Review comment: bot by user.type, earlier timestamp — must sort first.
        vec![comment(
            1,
            user("ci-daemon", "Bot"),
            "inline nit",
            "2026-01-01T00:00:00Z",
        )],
    );
    assert_eq!(snap.pr, pr7());
    assert_eq!(snap.state, "open");
    assert!(snap.draft);
    assert_eq!(snap.base, "main");
    assert_eq!(snap.head_sha, "abc123");
    assert_eq!(snap.mergeable, None);
    assert_eq!(
        snap.checks,
        vec![
            CheckRun {
                name: "ci".into(),
                status: "completed".into(),
                conclusion: Some("success".into()),
                url: Some("https://example.test/ci".into()),
            },
            CheckRun {
                name: "lint".into(),
                status: "in_progress".into(),
                conclusion: None,
                url: None,
            },
        ],
    );
    assert_eq!(
        snap.reviews,
        vec![Review {
            author: "alice".into(),
            state: "APPROVED".into()
        }],
    );
    assert_eq!(
        snap.comments,
        vec![
            PrComment {
                id: 1,
                author: "ci-daemon".into(),
                body: "inline nit".into(),
                is_bot: true,
                created_at: "2026-01-01T00:00:00Z".into(),
            },
            PrComment {
                id: 2,
                author: "dependabot[bot]".into(),
                body: "bump deps".into(),
                is_bot: true,
                created_at: "2026-01-02T00:00:00Z".into(),
            },
        ],
    );
}

#[test]
fn snapshot_reports_merged_state_when_merged_at_is_set() {
    let snap = forge().pr_snapshot(
        &pr7(),
        pull("closed", Some("2026-01-03T12:00:00Z"), false, Some(true)),
        Vec::new(),
        Vec::new(),
        Vec::new(),
        Vec::new(),
    );
    assert_eq!(snap.state, "merged");
    assert_eq!(snap.mergeable, Some(true));
    assert!(snap.checks.is_empty());
    assert!(snap.reviews.is_empty());
    assert!(snap.comments.is_empty());
}

#[test]
fn comments_of_one_time_keep_their_order() {
    let at = "2026-01-01T00:00:00Z";
    let snap = forge().pr_snapshot(
        &pr7(),
        pull("open", None, false, None),
        Vec::new(),
        vec![ApiReview {
            user: None,
            state: "COMMENTED".into(),
        }],
        vec![
            comment(1, None, "b", "2026-01-02T00:00:00Z"),
            comment(2, user("human", "User"), "a", at),
            comment(3, None, "c", at),
        ],
        vec![comment(4, None, "d", at), comment(5, None, "e", "2025")],
    );
    let ids: Vec<u64> = snap.comments.iter().map(|c| c.id).collect();
    assert_eq!(ids, [5, 2, 3, 4, 1]);
    assert_eq!(snap.comments[0].author, "ghost");
    assert!(!snap.comments[1].is_bot);
    assert_eq!(snap.reviews[0].author, "ghost");
}

#[test]
fn merge_sends_selected_merge_method() {
    for (variant, expected) in [
        (MergeMethod::Merge, "merge"),
        (MergeMethod::Squash, "squash"),
        (MergeMethod::Rebase, "rebase"),
    ] {
        let request = forge().merge(&pr7(), variant);
        assert_eq!(request.method, HttpMethod::Put);
        assert_eq!(
            request.url,
            format!("{URI}/repos/acme/widgets/pulls/7/merge")
        );
        assert!(request
            .headers
            .contains(&header("Authorization", "Bearer test-token-xyz")));
        assert_eq!(
            request.body,
            Some(
                Fields::new()
                    .with("merge_method", Json::text(expected))
                    .done()
            )
        );
    }
}

#[test]
fn merge_405_is_permanent_with_github_message() {
    match classify(
        &reply(405, None, ""),
        &said("Pull Request is not mergeable"),
        "merge",
    ) {
        Err(AdapterError::Permanent(msg)) => {
            assert!(msg.contains("Pull Request is not mergeable"), "got: {msg}");
        }
        other => panic!("expected Permanent, got {other:?}"),
    }
}

#[test]
fn server_error_502_is_transient() {
    match classify(&reply(502, None, ""), &None, "pr_snapshot pull") {
        Err(AdapterError::Transient(_)) => {}
        other => panic!("expected Transient, got {other:?}"),
    }
}

#[test]
fn rate_limited_403_is_transient() {
    match classify(
        &reply(403, Some("0"), ""),
        &said("API rate limit exceeded"),
        "pr_snapshot pull",
    ) {
        Err(AdapterError::Transient(msg)) => {
            assert!(msg.contains("API rate limit exceeded"), "got: {msg}");
        }
        other => panic!("expected Transient, got {other:?}"),
    }
    // The header is taken as it is.
    assert!(matches!(
        classify(&reply(403, Some(" 0"), "body"), &None, "merge"),
        Err(AdapterError::Permanent(_))
    ));
}

#[test]
fn post_comment_posts_issue_comment() {
    let request = forge().post_comment(&pr7(), "hello from yardmaster");
    assert_eq!(request.method, HttpMethod::Post);
    assert_eq!(
        request.url,
        format!("{URI}/repos/acme/widgets/issues/7/comments")
    );
    assert!(request
        .headers
        .contains(&header("Authorization", "Bearer test-token-xyz")));
    assert_eq!(
        request.body,
        Some(
            Fields::new()
                .with("body", Json::text("hello from yardmaster"))
                .done()
        )
    );
}

#[test]
fn pages_are_unwrapped_and_checked() {
    let list = Json::List(vec![Json::Null]);
    assert_eq!(page_list(&list, None).map(|l| l.len()), Some(1));
    assert!(page_list(&list, Some("check_runs")).is_none());
    let wrapped = Fields::new().with("check_runs", list).done();
    assert_eq!(
        page_list(&wrapped, Some("check_runs")).map(|l| l.len()),
        Some(1)
    );
    assert!(page_list(&wrapped, None).is_none());

    let bad: Pages<u8> = forge().get_paged("/x");
    match bad.add_page(&None, Page::NoList, "ctx") {
        Err(e) => assert_eq!(
            e,
            AdapterError::Permanent("unexpected ctx payload shape".to_owned())
        ),
        Ok(_) => panic!("accepted"),
    }
    let bad: Pages<u8> = forge().get_paged("/x");
    match bad.add_page(&None, Page::BadItem("eof".to_owned()), "ctx") {
        Err(e) => assert_eq!(
            e,
            AdapterError::Permanent("parsing ctx item: eof".to_owned())
        ),
        Ok(_) => panic!("accepted"),
    }
}

#[test]
fn forge_links_tolerate_brackets_and_params() {
    assert_eq!(
        next_link(&Some(
            "<a>; rel=\"prev\", <b>; title=x; rel=\"next\"".to_owned()
        )),
        Some("b".to_owned())
    );
    assert_eq!(next_link(&Some("<a>".to_owned())), None);
    assert_eq!(next_link(&None), None);
}

#[test]
fn forge_errors_are_spelled_out() {
    assert_eq!(
        lost("merge", "refused"),
        AdapterError::Transient("network error during merge: refused".to_owned())
    );
    assert_eq!(
        invalid_reply("merge", "eof"),
        AdapterError::Permanent("parsing merge response: eof".to_owned())
    );
    assert_eq!(
        no_client("tls"),
        AdapterError::Permanent("building http client: tls".to_owned())
    );
    assert_eq!(status_text(404), "404 Not Found");
    assert_eq!(status_text(999), "999 <unknown status code>");
}
