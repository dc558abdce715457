//! What the forge asks GitHub for, and what it makes of the answers.

use crate::adapters::{AdapterErrorView, MergeMethod, PrCommentView, PrDraftView, PrRefView};
use crate::forge_github as forge;
use crate::forge_github::{ApiCheckRun, ApiComment, ApiReview, ApiUser, Pull};
use crate::json::JsonView;
use crate::laws::json::{has_key, holds, lemma_holds, lemma_member_is_held};
use crate::rest;
use crate::rest::{HttpMethod, HttpReplyView};
use crate::text;
use vstd::prelude::*;
use vstd::string::*;

verus! {

// ---------------------------------------------------------------------------
// Snapshots

/// A snapshot shows the pull request as the API answered it: whether it can be
/// merged, whether it is a draft, its base and its head commit. It is merged
/// where it has a time of its merge, and else in the state the answer names.
pub proof fn lemma_snapshot_mirrors_the_pull(
    pr: PrRefView,
    pull: Pull,
    checks: Seq<ApiCheckRun>,
    reviews: Seq<ApiReview>,
    issue_comments: Seq<ApiComment>,
    review_comments: Seq<ApiComment>,
)
    ensures
        ({
            let shot = forge::snapshot_of(
                pr,
                pull,
                checks,
                reviews,
                issue_comments,
                review_comments,
            );
            &&& shot.pr == pr
            &&& shot.mergeable == pull.mergeable
            &&& shot.draft == pull.draft
            &&& shot.base == pull.base@
            &&& shot.head_sha == pull.head_sha@
            &&& pull.merged_at is Some ==> shot.state == "merged"@
            &&& pull.merged_at is None ==> shot.state == pull.state@
        }),
{
}

/// Pull requests whose answers differ in mergeability, in being a draft, in base
/// or in head commit have different snapshots, whatever else they share.
pub proof fn lemma_snapshots_tell_pulls_apart(
    pr: PrRefView,
    a: Pull,
    b: Pull,
    checks: Seq<ApiCheckRun>,
    reviews: Seq<ApiReview>,
    issue_comments: Seq<ApiComment>,
    review_comments: Seq<ApiComment>,
)
    requires
        a.mergeable != b.mergeable || a.draft != b.draft || a.base@ != b.base@ || a.head_sha@
            != b.head_sha@,
    ensures
        forge::snapshot_of(pr, a, checks, reviews, issue_comments, review_comments)
            != forge::snapshot_of(pr, b, checks, reviews, issue_comments, review_comments),
{
}

/// A snapshot shows every check run with its name, status, conclusion and
/// address, in the order of the answer.
pub proof fn lemma_snapshot_lists_the_checks(
    pr: PrRefView,
    pull: Pull,
    checks: Seq<ApiCheckRun>,
    reviews: Seq<ApiReview>,
    issue_comments: Seq<ApiComment>,
    review_comments: Seq<ApiComment>,
)
    ensures
        ({
            let shown = forge::snapshot_of(
                pr,
                pull,
                checks,
                reviews,
                issue_comments,
                review_comments,
            ).checks;
            &&& shown.len() == checks.len()
            &&& forall|i: int| #![trigger shown[i]]
                0 <= i < checks.len() ==> shown[i].name == checks[i].name@ && shown[i].status
                    == checks[i].status@ && shown[i].conclusion == text::opt_text(
                    checks[i].conclusion,
                ) && shown[i].url == text::opt_text(checks[i].html_url)
        }),
{
}

/// A snapshot shows every review with its author and verdict, in the order of
/// the answer; what a deleted account left behind is by `ghost`.
pub proof fn lemma_snapshot_lists_the_reviews(
    pr: PrRefView,
    pull: Pull,
    checks: Seq<ApiCheckRun>,
    reviews: Seq<ApiReview>,
    issue_comments: Seq<ApiComment>,
    review_comments: Seq<ApiComment>,
)
    ensures
        ({
            let shown = forge::snapshot_of(
                pr,
                pull,
                checks,
                reviews,
                issue_comments,
                review_comments,
            ).reviews;
            &&& shown.len() == reviews.len()
            &&& forall|i: int| #![trigger shown[i]]
                0 <= i < reviews.len() ==> shown[i].state == reviews[i].state@ && (
                reviews[i].user matches Some(u) ==> shown[i].author == u.login@) && (
                reviews[i].user is None ==> shown[i].author == "ghost"@)
        }),
{
}

/// Whether a comment is shown as the API answered it.
pub open spec fn shows(shown: PrCommentView, c: ApiComment) -> bool {
    &&& shown.id == c.id
    &&& shown.created_at == c.created_at@
    &&& c.body matches Some(body) ==> shown.body == body@
    &&& c.body is None ==> shown.body == Seq::<char>::empty()
    &&& c.user matches Some(u) ==> shown.author == u.login@ && (shown.is_bot <==> text::opt_text(
        u.kind,
    ) == Some("Bot"@) || text::closes_with(u.login@, "[bot]"@))
    &&& c.user is None ==> shown.author == "ghost"@ && !shown.is_bot
}

/// Whether a shown comment is one of those that were answered.
pub open spec fn comes_from(shown: PrCommentView, all: Seq<ApiComment>) -> bool {
    exists|k: int| 0 <= k < all.len() && shows(shown, #[trigger] all[k])
}

/// Whether an answered comment is among those shown.
pub open spec fn appears_in(c: ApiComment, shown: Seq<PrCommentView>) -> bool {
    exists|i: int| 0 <= i < shown.len() && shows(#[trigger] shown[i], c)
}

/// A snapshot shows the comments of the conversation and of the reviews, each
/// of them once and as it was answered, the earlier before the later.
pub proof fn lemma_snapshot_lists_the_comments(
    pr: PrRefView,
    pull: Pull,
    checks: Seq<ApiCheckRun>,
    reviews: Seq<ApiReview>,
    issue_comments: Seq<ApiComment>,
    review_comments: Seq<ApiComment>,
)
    ensures
        ({
            let shown = forge::snapshot_of(
                pr,
                pull,
                checks,
                reviews,
                issue_comments,
                review_comments,
            ).comments;
            let all = issue_comments + review_comments;
            &&& shown.len() == all.len()
            &&& forall|i: int| 0 <= i < shown.len() ==> comes_from(#[trigger] shown[i], all)
            &&& forall|k: int| 0 <= k < all.len() ==> appears_in(#[trigger] all[k], shown)
            &&& forall|i: int, j: int|
                0 <= i <= j < shown.len() ==> !text::text_lt(
                    (#[trigger] shown[j]).created_at,
                    (#[trigger] shown[i]).created_at,
                )
        }),
{
    let all = issue_comments + review_comments;
    let told = forge::comments_of(issue_comments) + forge::comments_of(review_comments);
    assert(told.len() == all.len());
    assert forall|k: int| 0 <= k < all.len() implies shows(#[trigger] told[k], all[k]) by {
        lemma_told(issue_comments, review_comments, k);
    }
    forge::lemma_comments_are_arranged(told);
    lemma_shown(all, told, forge::arranged(told));
    assert(forge::in_order(forge::arranged(told)));
}

proof fn lemma_told(a: Seq<ApiComment>, b: Seq<ApiComment>, k: int)
    requires
        0 <= k < (a + b).len(),
    ensures
        shows((forge::comments_of(a) + forge::comments_of(b))[k], (a + b)[k]),
{
    if k < a.len() {
        assert((forge::comments_of(a) + forge::comments_of(b))[k] == forge::comment_of(a[k]));
    } else {
        assert((forge::comments_of(a) + forge::comments_of(b))[k] == forge::comment_of(
            b[k - a.len()],
        ));
    }
}

proof fn lemma_shown(all: Seq<ApiComment>, told: Seq<PrCommentView>, shown: Seq<PrCommentView>)
    requires
        told.len() == all.len(),
        forall|k: int| 0 <= k < all.len() ==> shows(#[trigger] told[k], all[k]),
        shown.to_multiset() == told.to_multiset(),
    ensures
        shown.len() == all.len(),
        forall|i: int| 0 <= i < shown.len() ==> comes_from(#[trigger] shown[i], all),
        forall|k: int| 0 <= k < all.len() ==> appears_in(#[trigger] all[k], shown),
{
    lemma_same_members(shown, told);
    assert forall|i: int| 0 <= i < shown.len() implies comes_from(#[trigger] shown[i], all) by {
        assert(shown.contains(shown[i]));
        assert(told.contains(shown[i]));
        let k = choose|k: int| 0 <= k < told.len() && told[k] == shown[i];
        assert(shows(told[k], all[k]));
    }
    assert forall|k: int| 0 <= k < all.len() implies appears_in(#[trigger] all[k], shown) by {
        assert(told.contains(told[k]));
        assert(shown.contains(told[k]));
        let i = choose|i: int| 0 <= i < shown.len() && shown[i] == told[k];
        assert(shows(told[k], all[k]));
    }
}

proof fn lemma_same_members(a: Seq<PrCommentView>, b: Seq<PrCommentView>)
    requires
        a.to_multiset() == b.to_multiset(),
    ensures
        a.len() == b.len(),
        forall|x: PrCommentView| #[trigger] a.contains(x) <==> b.contains(x),
{
    a.to_multiset_ensures();
    b.to_multiset_ensures();
    assert forall|x: PrCommentView| a.contains(x) == #[trigger] b.contains(x) by {
        assert(a.contains(x) <==> a.to_multiset().count(x) > 0);
        assert(b.contains(x) <==> b.to_multiset().count(x) > 0);
    }
}

/// An account is a bot by its type or by the ending of its login, and for no
/// other reason.
pub proof fn lemma_bots(u: ApiUser, name: Seq<char>)
    ensures
        text::opt_text(u.kind) == Some("Bot"@) ==> forge::bot(u),
        u.login@ == name + "[bot]"@ ==> forge::bot(u),
        forge::bot(u) && text::opt_text(u.kind) != Some("Bot"@) ==> exists|n: Seq<char>|
            u.login@ == #[trigger] (n + "[bot]"@),
{
    let tail = "[bot]"@;
    if u.login@ == name + tail {
        assert(u.login@.skip(u.login@.len() - tail.len()) == tail);
    }
    if forge::bot(u) && text::opt_text(u.kind) != Some("Bot"@) {
        let n = u.login@.take(u.login@.len() - tail.len());
        assert(u.login@ == n + tail);
    }
}

/// The lists of a snapshot are the check runs of the head commit, the reviews
/// of the pull request, and the comments on it as an issue and as a pull
/// request. Each is looked for at an address of its own.
pub proof fn lemma_snapshot_lists(pr: PrRefView, head_sha: Seq<char>)
    ensures
        ({
            let lists = forge::snapshot_lists(pr, head_sha);
            &&& lists.len() == 4
            &&& forall|i: int|
                0 <= i < 4 ==> text::opens_with(
                    (#[trigger] lists[i]).path,
                    "/repos/"@ + pr.repo + "/"@,
                )
            &&& text::has_text(lists[0].path, head_sha)
            &&& text::closes_with(lists[0].path, "/check-runs"@)
            &&& lists[0].wrapper == Some("check_runs"@)
            &&& text::closes_with(
                lists[1].path,
                "/pulls/"@ + text::int_text(pr.number) + "/reviews"@,
            )
            &&& text::closes_with(
                lists[2].path,
                "/issues/"@ + text::int_text(pr.number) + "/comments"@,
            )
            &&& text::closes_with(
                lists[3].path,
                "/pulls/"@ + text::int_text(pr.number) + "/comments"@,
            )
            &&& forall|i: int| 1 <= i < 4 ==> (#[trigger] lists[i]).wrapper is None
        }),
{
    let lists = forge::snapshot_lists(pr, head_sha);
    let root = "/repos/"@ + pr.repo + "/"@;
    let n = text::int_text(pr.number);
    reveal_strlit("/");
    reveal_strlit("/commits/");
    reveal_strlit("/pulls/");
    reveal_strlit("pulls");
    reveal_strlit("/issues/");
    reveal_strlit("issues");
    reveal_strlit("commits/");
    assert("/"@ + "commits/"@ == "/commits/"@);
    assert("/"@ + "pulls"@ + "/"@ == "/pulls/"@);
    assert("/"@ + "issues"@ + "/"@ == "/issues/"@);
    assert(lists[0].path == root + ("commits/"@ + head_sha + "/check-runs"@));
    lemma_address(root, "commits/"@ + head_sha + "/check-runs"@);
    text::lemma_has_middle("/repos/"@ + pr.repo + "/commits/"@, head_sha, "/check-runs"@);
    lemma_ending("/repos/"@ + pr.repo + "/commits/"@ + head_sha, "/check-runs"@);
    lemma_pr_address(pr, "pulls"@, "/pulls/"@, "/reviews"@);
    lemma_pr_address(pr, "issues"@, "/issues/"@, "/comments"@);
    lemma_pr_address(pr, "pulls"@, "/pulls/"@, "/comments"@);
}

proof fn lemma_pr_address(pr: PrRefView, kind: Seq<char>, slashed: Seq<char>, tail: Seq<char>)
    requires
        "/"@ + kind + "/"@ == slashed,
    ensures
        text::opens_with(forge::pr_path(pr, kind) + tail, "/repos/"@ + pr.repo + "/"@),
        text::closes_with(
            forge::pr_path(pr, kind) + tail,
            slashed + text::int_text(pr.number) + tail,
        ),
{
    let root = "/repos/"@ + pr.repo + "/"@;
    let n = text::int_text(pr.number);
    let path = forge::pr_path(pr, kind) + tail;
    assert(path == root + (kind + "/"@ + n + tail));
    lemma_address(root, kind + "/"@ + n + tail);
    assert(path == ("/repos/"@ + pr.repo) + ("/"@ + kind + "/"@ + n + tail));
    assert("/"@ + kind + "/"@ + n + tail == slashed + n + tail);
    lemma_ending("/repos/"@ + pr.repo, slashed + n + tail);
}

proof fn lemma_address(a: Seq<char>, b: Seq<char>)
    ensures
        text::opens_with(a + b, a),
{
    assert((a + b).take(a.len() as int) == a);
}

proof fn lemma_ending(a: Seq<char>, b: Seq<char>)
    ensures
        text::closes_with(a + b, b),
{
    assert((a + b).skip(a.len() as int) == b);
}

/// The address of a pull request names its repository, what it is looked up
/// as, and its number; pull requests with different numbers have different
/// addresses.
pub proof fn lemma_pr_path_names_the_pr(pr: PrRefView, other: PrRefView, kind: Seq<char>)
    ensures
        text::opens_with(forge::pr_path(pr, kind), "/repos/"@ + pr.repo + "/"@ + kind + "/"@),
        text::closes_with(forge::pr_path(pr, kind), "/"@ + text::int_text(pr.number)),
        pr.repo == other.repo && forge::pr_path(pr, kind) == forge::pr_path(other, kind)
            ==> pr.number == other.number,
{
    let n = text::int_text(pr.number);
    let root = "/repos/"@ + pr.repo + "/"@ + kind + "/"@;
    lemma_address(root, n);
    assert(forge::pr_path(pr, kind) == ("/repos/"@ + pr.repo + "/"@ + kind) + ("/"@ + n));
    lemma_ending("/repos/"@ + pr.repo + "/"@ + kind, "/"@ + n);
    if pr.repo == other.repo && forge::pr_path(pr, kind) == forge::pr_path(other, kind) {
        let m = text::int_text(other.number);
        assert((root + n).skip(root.len() as int) == n);
        assert((root + m).skip(root.len() as int) == m);
        text::lemma_int_text_denotes(pr.number);
        text::lemma_int_text_denotes(other.number);
    }
}

// ---------------------------------------------------------------------------
// Requests

/// The request for a pull request carries the draft: its title, its body, its
/// branch, its base, and whether it is a draft.
pub proof fn lemma_creation_carries_the_draft(d: PrDraftView)
    ensures
        holds(forge::creation_json(d), "title"@, JsonView::Str(d.title)),
        holds(forge::creation_json(d), "body"@, JsonView::Str(d.body)),
        holds(forge::creation_json(d), "head"@, JsonView::Str(d.head)),
        holds(forge::creation_json(d), "base"@, JsonView::Str(d.base)),
        holds(forge::creation_json(d), "draft"@, JsonView::Bool(d.draft)),
{
    let fields = forge::creation_json(d)->Object_0;
    lemma_holds(fields, 0);
    lemma_holds(fields, 1);
    lemma_holds(fields, 2);
    lemma_holds(fields, 3);
    lemma_holds(fields, 4);
}

/// Every method of merging goes by its own name.
pub proof fn lemma_merge_methods()
    ensures
        forge::merge_text(MergeMethod::Merge) == "merge"@,
        forge::merge_text(MergeMethod::Squash) == "squash"@,
        forge::merge_text(MergeMethod::Rebase) == "rebase"@,
{
}

/// Every request names the caller, asks for GitHub's own format in a fixed
/// version of the API, and authorises itself with the token.
pub proof fn lemma_requests_introduce_themselves(
    method: HttpMethod,
    url: Seq<char>,
    token: Seq<char>,
    body: Option<JsonView>,
)
    ensures
        ({
            let sent = rest::request_of(method, url, token, body);
            &&& sent.method == method && sent.url == url && sent.body == body
            &&& sent.headers.contains(("Authorization"@, "Bearer "@ + token))
            &&& sent.headers.contains(("Accept"@, "application/vnd.github+json"@))
            &&& sent.headers.contains(("X-GitHub-Api-Version"@, "2022-11-28"@))
            &&& sent.headers.contains(("User-Agent"@, "yardmaster"@))
        }),
{
    let headers = rest::standard_headers(token);
    assert(headers[0] == ("Authorization"@, "Bearer "@ + token));
    assert(headers[1] == ("Accept"@, "application/vnd.github+json"@));
    assert(headers[2] == ("X-GitHub-Api-Version"@, "2022-11-28"@));
    assert(headers[3] == ("User-Agent"@, "yardmaster"@));
}

/// Every method goes by its own name.
pub proof fn lemma_method_names()
    ensures
        rest::method_text(HttpMethod::Get) == "GET"@,
        rest::method_text(HttpMethod::Post) == "POST"@,
        rest::method_text(HttpMethod::Put) == "PUT"@,
        rest::method_text(HttpMethod::Patch) == "PATCH"@,
{
}

// ---------------------------------------------------------------------------
// Replies

/// A failed exchange can be tried again exactly where the server is in trouble,
/// asks to wait, or refuses for want of quota; its message is the one given.
pub proof fn lemma_failures_that_pass(code: u16, quota_exhausted: bool, message: Seq<char>)
    ensures
        500 <= code <= 599 ==> rest::failure(code, quota_exhausted, message)
            == AdapterErrorView::Transient(message),
        code == 429 ==> rest::failure(code, quota_exhausted, message)
            == AdapterErrorView::Transient(message),
        code == 403 && quota_exhausted ==> rest::failure(code, quota_exhausted, message)
            == AdapterErrorView::Transient(message),
        code == 403 && !quota_exhausted ==> rest::failure(code, quota_exhausted, message)
            == AdapterErrorView::Permanent(message),
        (code < 500 || code > 599) && code != 429 && code != 403 ==> rest::failure(
            code,
            quota_exhausted,
            message,
        ) == AdapterErrorView::Permanent(message),
{
}

/// The message of a failure names what was being done and says what the reply
/// says: the message in its body, or else the body.
pub proof fn lemma_refusal_says_what_came_back(
    reply: HttpReplyView,
    message: Option<Seq<char>>,
    context: Seq<char>,
)
    ensures
        ({
            let told = forge::refusal(reply, message, context);
            &&& text::has_text(told, context)
            &&& text::has_text(told, rest::status_display(reply.status))
            &&& message matches Some(m) ==> text::closes_with(told, m)
            &&& message is None ==> text::closes_with(told, reply.body)
        }),
{
    let said = match message {
        Some(m) => m,
        None => reply.body,
    };
    let shown = rest::status_display(reply.status);
    let told = forge::refusal(reply, message, context);
    lemma_ending("github "@ + shown + " during "@ + context + ": "@, said);
    assert(told == ("github "@ + shown + " during "@) + context + (": "@ + said));
    text::lemma_has_middle("github "@ + shown + " during "@, context, ": "@ + said);
    assert(told == "github "@ + shown + (" during "@ + context + ": "@ + said));
    text::lemma_has_middle("github "@, shown, " during "@ + context + ": "@ + said);
}

/// An entry of a `Link` header that leads to the next page is read as the
/// address between its angle brackets.
pub proof fn lemma_next_entry_is_read(url: Seq<char>, params: Seq<char>)
    requires
        url.len() > 0,
        url[0] != '<',
        url.last() != '>',
        !url.contains(';'),
    ensures
        text::has_text(params, "rel=\"next\""@) ==> forge::entry_next(
            "<"@ + url + ">;"@ + params,
        ) == Some(url),
        !text::has_text(params, "rel=\"next\""@) ==> forge::entry_next(
            "<"@ + url + ">;"@ + params,
        ) is None,
{
    reveal_strlit("<");
    reveal_strlit(">;");
    let target = seq!['<'] + url + seq!['>'];
    let entry = "<"@ + url + ">;"@ + params;
    let n = target.len() as int;
    assert(entry == target.push(';') + params);
    assert forall|i: int| 0 <= i < n implies entry[i] != ';' by {
        assert(entry[i] == target[i]);
        if 1 <= i < n - 1 {
            assert(target[i] == url[i - 1]);
            assert(url.contains(url[i - 1]));
        }
    }
    text::lemma_first_at(entry, ';', n);
    assert(entry.take(n) == target);
    assert(entry.skip(n + 1) == params);
    assert(text::cut_at(entry, ';') == Some((target, params)));
    let w = text::white();
    assert(!w('>') && !w('<'));
    assert(text::trimmed_end(target, w) == target);
    assert(text::trimmed_start(target, w) == target);
    let rest = url + seq!['>'];
    assert(target.skip(1) == rest);
    assert(rest[0] == url[0]);
    assert(text::trimmed_start(rest, text::only('<')) == rest);
    assert(text::trimmed_start(target, text::only('<')) == rest);
    assert(rest.drop_last() == url);
    assert(text::trimmed_end(url, text::only('>')) == url);
    assert(text::trimmed_end(rest, text::only('>')) == url);
}

/// The next page is that of the first entry that names one, and there is none
/// where no entry does or the header is missing.
pub proof fn lemma_next_page_is_the_first_named(entries: Seq<Seq<char>>)
    ensures
        match forge::next_of(entries) {
            Some(url) => exists|i: int|
                0 <= i < entries.len() && forge::entry_next(#[trigger] entries[i]) == Some(url) && (
                forall|j: int| 0 <= j < i ==> forge::entry_next(#[trigger] entries[j]) is None),
            None => forall|j: int|
                0 <= j < entries.len() ==> forge::entry_next(#[trigger] entries[j]) is None,
        },
        forge::following(None) is None,
    decreases entries.len(),
{
    if entries.len() > 0 && forge::entry_next(entries[0]) is None {
        let rest = entries.skip(1);
        lemma_next_page_is_the_first_named(rest);
        assert(forall|j: int| 0 < j < entries.len() ==> #[trigger] entries[j] == rest[j - 1]);
        if let Some(url) = forge::next_of(rest) {
            let i = choose|i: int|
                0 <= i < rest.len() && forge::entry_next(#[trigger] rest[i]) == Some(url) && (
                forall|j: int| 0 <= j < i ==> forge::entry_next(#[trigger] rest[j]) is None);
            assert(entries[i + 1] == rest[i]);
        }
    }
}

/// Everything between the commas of a `Link` header counts as an entry.
pub proof fn lemma_link_entries(header: Seq<char>, url: Seq<char>)
    requires
        forge::following(Some(header)) == Some(url),
    ensures
        exists|i: int|
            0 <= i < text::pieces(header, ',').len() && forge::entry_next(
                #[trigger] text::pieces(header, ',')[i],
            ) == Some(url),
{
    lemma_next_page_is_the_first_named(text::pieces(header, ','));
}

/// A list that is wrapped is the member of its name, and there is none where
/// that member is missing; one that is not wrapped is the page itself.
pub proof fn lemma_lists_are_unwrapped(page: JsonView, key: Seq<char>)
    ensures
        forge::enveloped(page, None) == Some(page),
        forge::enveloped(page, Some(key)) matches Some(found) ==> holds(page, key, found),
        !has_key(page, key) ==> forge::enveloped(page, Some(key)) is None,
        has_key(page, key) ==> forge::enveloped(page, Some(key)) is Some,
{
    lemma_member_is_held(page, key);
    if let Some(found) = forge::enveloped(page, Some(key)) {
        assert(holds(page, key, found));
    }
}

/// What goes wrong with one of the lists is told with the list's own name.
pub proof fn lemma_lists_have_names(pr: PrRefView, head_sha: Seq<char>)
    ensures
        ({
            let lists = forge::snapshot_lists(pr, head_sha);
            &&& lists[0].context == "pr_snapshot check-runs"@
            &&& lists[1].context == "pr_snapshot reviews"@
            &&& lists[2].context == "pr_snapshot issue comments"@
            &&& lists[3].context == "pr_snapshot review comments"@
        }),
{
}

/// Among the comments of one moment, those of the conversation stand before
/// those of the reviews, each in the order of its answer.
pub proof fn lemma_comments_of_one_moment(
    pr: PrRefView,
    pull: Pull,
    checks: Seq<ApiCheckRun>,
    reviews: Seq<ApiReview>,
    issue_comments: Seq<ApiComment>,
    review_comments: Seq<ApiComment>,
    at: Seq<char>,
)
    ensures
        forge::created(
            forge::snapshot_of(
                pr,
                pull,
                checks,
                reviews,
                issue_comments,
                review_comments,
            ).comments,
            at,
        ) == forge::created(forge::comments_of(issue_comments), at) + forge::created(
            forge::comments_of(review_comments),
            at,
        ),
{
    let a = forge::comments_of(issue_comments);
    let b = forge::comments_of(review_comments);
    forge::lemma_comments_are_arranged(a + b);
    assert(forge::created(forge::arranged(a + b), at) == forge::created(a + b, at));
    lemma_created_in_a_row(a, b, at);
}

proof fn lemma_created_in_a_row(a: Seq<PrCommentView>, b: Seq<PrCommentView>, at: Seq<char>)
    ensures
        forge::created(a + b, at) == forge::created(a, at) + forge::created(b, at),
    decreases b.len(),
{
    reveal(Seq::filter);
    if b.len() == 0 {
        assert(a + b == a);
        assert(forge::created(b, at) == Seq::<PrCommentView>::empty());
    } else {
        lemma_created_in_a_row(a, b.drop_last(), at);
        assert((a + b).drop_last() == a + b.drop_last());
        assert((a + b).last() == b.last());
    }
    assert(forge::created(a + b, at) == forge::created(a, at) + forge::created(b, at));
}

} // verus!
