//! Pull requests on GitHub.
//!
//! Only approved actions reach this adapter; gates are none of its business.
//! Requests and replies are plain data, and the token stands in the
//! `Authorization` header alone.

use crate::adapters;
use crate::adapters::{
    AdapterError, AdapterErrorView, AdapterResult, CheckRun, CheckRunView, MergeMethod, PrComment,
    PrCommentView, PrDraft, PrDraftView, PrRef, PrRefView, PrSnapshot, PrSnapshotView, Review,
    ReviewView, Secret,
};
use crate::json;
use crate::json::{Fields, Json, JsonView};
use crate::rest;
use crate::rest::{fail, request, status_text, HttpMethod, HttpReply, HttpReplyView, HttpRequest};
use crate::text;
use crate::text::{
    contains_text, copy_opt, ends_with, precedes, split, split_once, text_eq, trim, trim_end_char,
    trim_start_char, u64_string,
};
use vstd::prelude::*;
use vstd::string::*;

verus! {

/// Author of what a deleted account left behind.
pub const GHOST_LOGIN: &'static str = "ghost";

// ---------------------------------------------------------------------------
// What the API answers, as far as it is used

#[derive(Debug, PartialEq, Eq)]
pub struct Pull {
    pub state: String,
    pub merged_at: Option<String>,
    pub draft: bool,
    /// Name of the base branch.
    pub base: String,
    pub head_sha: String,
    pub mergeable: Option<bool>,
}

#[derive(Debug, PartialEq, Eq)]
pub struct ApiCheckRun {
    pub name: String,
    pub status: String,
    pub conclusion: Option<String>,
    pub html_url: Option<String>,
}

#[derive(Debug, PartialEq, Eq)]
pub struct ApiUser {
    pub login: String,
    /// `Bot` or the type of a human account.
    pub kind: Option<String>,
}

#[derive(Debug, PartialEq, Eq)]
pub struct ApiReview {
    pub user: Option<ApiUser>,
    pub state: String,
}

#[derive(Debug, PartialEq, Eq)]
pub struct ApiComment {
    pub id: u64,
    pub user: Option<ApiUser>,
    pub body: Option<String>,
    pub created_at: String,
}

pub open spec fn check_of(c: ApiCheckRun) -> CheckRunView {
    CheckRunView {
        name: c.name@,
        status: c.status@,
        conclusion: text::opt_text(c.conclusion),
        url: text::opt_text(c.html_url),
    }
}

/// Accounts of type `Bot`, and those whose login says so.
pub open spec fn bot(u: ApiUser) -> bool {
    text::opt_text(u.kind) == Some("Bot"@) || text::closes_with(u.login@, "[bot]"@)
}

pub open spec fn author_of(u: Option<ApiUser>) -> Seq<char> {
    match u {
        Some(user) => user.login@,
        None => GHOST_LOGIN@,
    }
}

pub open spec fn review_of(r: ApiReview) -> ReviewView {
    ReviewView { author: author_of(r.user), state: r.state@ }
}

pub open spec fn comment_of(c: ApiComment) -> PrCommentView {
    PrCommentView {
        id: c.id as int,
        author: author_of(c.user),
        body: match c.body {
            Some(b) => b@,
            None => Seq::empty(),
        },
        is_bot: c.user matches Some(u) && bot(u),
        created_at: c.created_at@,
    }
}

impl ApiUser {
    pub fn is_bot(&self) -> (r: bool)
        ensures
            r == bot(*self),
    {
        let declared = match &self.kind {
            Some(kind) => text_eq(kind.as_str(), "Bot"),
            None => false,
        };
        declared || ends_with(self.login.as_str(), "[bot]")
    }
}

fn author(user: &Option<ApiUser>) -> (r: String)
    ensures
        r@ == author_of(*user),
{
    match user {
        Some(u) => u.login.clone(),
        None => GHOST_LOGIN.to_owned(),
    }
}

impl ApiCheckRun {
    pub fn into_check_run(&self) -> (r: CheckRun)
        ensures
            r@ == check_of(*self),
    {
        CheckRun {
            name: self.name.clone(),
            status: self.status.clone(),
            conclusion: copy_opt(&self.conclusion),
            url: copy_opt(&self.html_url),
        }
    }
}

impl ApiReview {
    pub fn into_review(&self) -> (r: Review)
        ensures
            r@ == review_of(*self),
    {
        Review { author: author(&self.user), state: self.state.clone() }
    }
}

impl ApiComment {
    pub fn into_comment(&self) -> (r: PrComment)
        ensures
            r@ == comment_of(*self),
    {
        let is_bot = match &self.user {
            Some(u) => u.is_bot(),
            None => false,
        };
        PrComment {
            id: self.id,
            author: author(&self.user),
            body: match &self.body {
                Some(b) => b.clone(),
                None => String::new(),
            },
            is_bot,
            created_at: self.created_at.clone(),
        }
    }
}

// ---------------------------------------------------------------------------
// The order of comments

/// Where a comment goes among others: behind all that are not later.
pub open spec fn place(s: Seq<PrCommentView>, x: PrCommentView) -> nat
    decreases s.len(),
{
    if s.len() > 0 && text::text_lt(x.created_at, s.last().created_at) {
        place(s.drop_last(), x)
    } else {
        s.len()
    }
}

/// Comments by time of creation; those of one time keep their order.
pub open spec fn arranged(s: Seq<PrCommentView>) -> Seq<PrCommentView>
    decreases s.len(),
{
    if s.len() == 0 {
        s
    } else {
        let before = arranged(s.drop_last());
        before.insert(place(before, s.last()) as int, s.last())
    }
}

/// No comment stands before an earlier one.
pub open spec fn in_order(s: Seq<PrCommentView>) -> bool {
    forall|i: int, j: int|
        0 <= i <= j < s.len() ==> !text::text_lt(
            (#[trigger] s[j]).created_at,
            (#[trigger] s[i]).created_at,
        )
}

/// The comments of one time of creation, in their order.
pub open spec fn created(s: Seq<PrCommentView>, at: Seq<char>) -> Seq<PrCommentView> {
    s.filter(|c: PrCommentView| c.created_at == at)
}

proof fn lemma_place(s: Seq<PrCommentView>, x: PrCommentView)
    ensures
        place(s, x) <= s.len(),
        forall|i: int|
            place(s, x) <= i < s.len() ==> text::text_lt(
                x.created_at,
                (#[trigger] s[i]).created_at,
            ),
        place(s, x) > 0 ==> !text::text_lt(x.created_at, s[place(s, x) - 1].created_at),
    decreases s.len(),
{
    if s.len() > 0 && text::text_lt(x.created_at, s.last().created_at) {
        let init = s.drop_last();
        lemma_place(init, x);
        assert forall|i: int| place(s, x) <= i < s.len() implies text::text_lt(
            x.created_at,
            (#[trigger] s[i]).created_at,
        ) by {
            if i < init.len() {
                assert(init[i] == s[i]);
            }
        }
    }
}

proof fn lemma_not_earlier(a: Seq<char>, b: Seq<char>, c: Seq<char>)
    requires
        !text::text_lt(b, a),
        !text::text_lt(c, b),
    ensures
        !text::text_lt(c, a),
{
    text::lemma_text_order_total(a, b);
    text::lemma_text_order_total(b, c);
    text::lemma_text_order_total(a, c);
    if text::text_lt(a, b) && text::text_lt(b, c) {
        text::lemma_text_lt_transitive(a, b, c);
    }
}

/// Arranging loses nothing and invents nothing, puts earlier comments first and
/// keeps the order of those created at one time.
pub proof fn lemma_comments_are_arranged(s: Seq<PrCommentView>)
    ensures
        arranged(s).to_multiset() == s.to_multiset(),
        in_order(arranged(s)),
        forall|at: Seq<char>| #[trigger] created(arranged(s), at) == created(s, at),
    decreases s.len(),
{
    broadcast use vstd::seq_lib::group_to_multiset_ensures;

    if s.len() > 0 {
        let init = s.drop_last();
        let x = s.last();
        lemma_comments_are_arranged(init);
        let before = arranged(init);
        let p = place(before, x) as int;
        let after = arranged(s);
        lemma_place(before, x);
        assert(s == init.push(x));
        before.insert_ensures(p, x);
        assert(after =~= before.take(p).push(x) + before.skip(p));
        assert(before =~= before.take(p) + before.skip(p));
        vstd::seq_lib::lemma_multiset_commutative(before.take(p), before.skip(p));
        vstd::seq_lib::lemma_multiset_commutative(before.take(p).push(x), before.skip(p));
        assert(after.to_multiset() =~= s.to_multiset());
        assert forall|i: int, j: int| 0 <= i <= j < after.len() implies !text::text_lt(
            (#[trigger] after[j]).created_at,
            (#[trigger] after[i]).created_at,
        ) by {
            lemma_arranged_pair(before, x, i, j);
        }
        assert forall|at: Seq<char>| #[trigger] created(after, at) == created(s, at) by {
            lemma_arranged_created(before, x, at);
            let keep = |c: PrCommentView| c.created_at == at;
            assert(created(before, at) == created(init, at));
            assert(before.push(x) =~= before + seq![x]);
            assert(s =~= init + seq![x]);
            Seq::filter_distributes_over_add(before, seq![x], keep);
            Seq::filter_distributes_over_add(init, seq![x], keep);
        }
    }
}

proof fn lemma_arranged_pair(before: Seq<PrCommentView>, x: PrCommentView, i: int, j: int)
    requires
        in_order(before),
        0 <= i <= j <= before.len(),
    ensures
        ({
            let after = before.insert(place(before, x) as int, x);
            !text::text_lt(after[j].created_at, after[i].created_at)
        }),
{
    let p = place(before, x) as int;
    let after = before.insert(p, x);
    lemma_place(before, x);
    let old_i = if i < p { i } else { i - 1 };
    let old_j = if j < p { j } else { j - 1 };
    if i == p && j == p {
        text::lemma_text_order_total(x.created_at, x.created_at);
    } else if i == p {
        assert(after[j] == before[old_j]);
        text::lemma_text_order_total(x.created_at, before[old_j].created_at);
    } else if j == p {
        assert(after[i] == before[i]);
        assert(!text::text_lt(before[p - 1].created_at, before[i].created_at));
        lemma_not_earlier(before[i].created_at, before[p - 1].created_at, x.created_at);
    } else {
        assert(after[i] == before[old_i]);
        assert(after[j] == before[old_j]);
    }
}

proof fn lemma_none_created(s: Seq<PrCommentView>, at: Seq<char>)
    requires
        forall|i: int| 0 <= i < s.len() ==> (#[trigger] s[i]).created_at != at,
    ensures
        created(s, at) == Seq::<PrCommentView>::empty(),
    decreases s.len(),
{
    reveal(Seq::filter);
    if s.len() > 0 {
        let init = s.drop_last();
        assert forall|i: int| 0 <= i < init.len() implies (#[trigger] init[i]).created_at != at by {
            assert(init[i] == s[i]);
        }
        lemma_none_created(init, at);
    }
}

proof fn lemma_arranged_created(before: Seq<PrCommentView>, x: PrCommentView, at: Seq<char>)
    ensures
        created(before.insert(place(before, x) as int, x), at) == created(before.push(x), at),
{
    let keep = |c: PrCommentView| c.created_at == at;
    let p = place(before, x) as int;
    lemma_place(before, x);
    let low = before.take(p);
    let high = before.skip(p);
    let one = seq![x];
    let after = before.insert(p, x);
    assert(after =~= (low + one) + high);
    assert(before.push(x) =~= (low + high) + one);
    Seq::filter_distributes_over_add(low + one, high, keep);
    Seq::filter_distributes_over_add(low, one, keep);
    Seq::filter_distributes_over_add(low + high, one, keep);
    Seq::filter_distributes_over_add(low, high, keep);
    if x.created_at == at {
        assert forall|i: int| 0 <= i < high.len() implies (#[trigger] high[i]).created_at != at by {
            assert(high[i] == before[p + i]);
            text::lemma_text_order_total(x.created_at, before[p + i].created_at);
        }
        lemma_none_created(high, at);
        assert(created(after, at) =~= created(before.push(x), at));
    } else {
        lemma_none_created(one, at);
        assert(created(after, at) =~= created(before.push(x), at));
    }
}

pub open spec fn comments_of(v: Seq<ApiComment>) -> Seq<PrCommentView> {
    Seq::new(v.len(), |i: int| comment_of(v[i]))
}

/// Adds comments to those that are already in order.
fn arrange(
    sorted: Vec<PrComment>,
    more: &Vec<ApiComment>,
    Ghost(had): Ghost<Seq<PrCommentView>>,
) -> (r: Vec<PrComment>)
    requires
        adapters::comment_views(sorted@) == arranged(had),
    ensures
        adapters::comment_views(r@) == arranged(had + comments_of(more@)),
{
    let mut out = sorted;
    let ghost all = comments_of(more@);
    assert(had + all.take(0) == had);
    let mut i: usize = 0;
    while i < more.len()
        invariant
            i <= more@.len(),
            all == comments_of(more@),
            adapters::comment_views(out@) == arranged(had + all.take(i as int)),
        decreases more@.len() - i,
    {
        let comment = more[i].into_comment();
        let ghost before = adapters::comment_views(out@);
        let mut p: usize = out.len();
        assert(before.take(p as int) == before);
        while p > 0 && precedes(comment.created_at.as_str(), out[p - 1].created_at.as_str())
            invariant
                p <= out@.len(),
                before == adapters::comment_views(out@),
                place(before, comment@) == place(before.take(p as int), comment@),
            decreases p,
        {
            assert(before.take(p as int).last() == out@[p as int - 1]@);
            assert(before.take(p as int).drop_last() == before.take(p as int - 1));
            p = p - 1;
        }
        proof {
            if p > 0 {
                assert(before.take(p as int).last() == out@[p as int - 1]@);
            }
            assert(place(before, comment@) == p);
            let next = had + all.take(i as int + 1);
            assert(next.last() == comment@);
            assert(next.drop_last() == had + all.take(i as int));
        }
        let ghost view = comment@;
        out.insert(p, comment);
        assert(adapters::comment_views(out@) == before.insert(p as int, view));
        i = i + 1;
    }
    assert(all.take(i as int) == all);
    out
}

// ---------------------------------------------------------------------------
// Replies

/// What stands after `key` in an object, or the value itself.
pub open spec fn enveloped(page: JsonView, wrapper: Option<Seq<char>>) -> Option<JsonView> {
    match wrapper {
        Some(key) => json::member(page, key),
        None => Some(page),
    }
}

/// The list that a page holds: the page itself, or the member that wraps it.
pub fn page_list<'a>(page: &'a Json, wrapper: Option<&str>) -> (r: Option<&'a Vec<Json>>)
    ensures
        match r {
            Some(items) => enveloped(page@, text::opt_str_text(wrapper)) == Some(
                JsonView::List(json::list_view(items@)),
            ),
            None => !(enveloped(page@, text::opt_str_text(wrapper)) matches Some(
                JsonView::List(_),
            )),
        },
{
    let list = match wrapper {
        Some(key) => match page.get(key) {
            Some(value) => value,
            None => return None,
        },
        None => page,
    };
    match list {
        Json::List(items) => Some(items),
        _ => None,
    }
}

/// The target of one entry of a `Link` header, when it leads to the next page.
pub open spec fn entry_next(entry: Seq<char>) -> Option<Seq<char>> {
    match text::cut_at(entry, ';') {
        Some((target, params)) => if text::has_text(params, "rel=\"next\""@) {
            Some(
                text::trimmed_end(
                    text::trimmed_start(text::trimmed(target), text::only('<')),
                    text::only('>'),
                ),
            )
        } else {
            None
        },
        None => None,
    }
}

/// The target of the first entry that leads to the next page.
pub open spec fn next_of(entries: Seq<Seq<char>>) -> Option<Seq<char>>
    decreases entries.len(),
{
    if entries.len() == 0 {
        None
    } else {
        match entry_next(entries[0]) {
            Some(url) => Some(url),
            None => next_of(entries.skip(1)),
        }
    }
}

/// The page after the one that a reply with this `Link` header brought.
pub open spec fn following(link: Option<Seq<char>>) -> Option<Seq<char>> {
    match link {
        Some(header) => next_of(text::pieces(header, ',')),
        None => None,
    }
}

fn entry_target(entry: &str) -> (r: Option<String>)
    ensures
        text::opt_text(r) == entry_next(entry@),
{
    match split_once(entry, ';') {
        Some((target, params)) => if contains_text(params.as_str(), "rel=\"next\"") {
            let opened = trim_start_char(trim(target.as_str()).as_str(), '<');
            Some(trim_end_char(opened.as_str(), '>'))
        } else {
            None
        },
        None => None,
    }
}

/// The page that a `Link` header names as the next one.
pub fn next_link(link: &Option<String>) -> (r: Option<String>)
    ensures
        text::opt_text(r) == following(text::opt_text(*link)),
{
    let entries = match link {
        Some(header) => split(header.as_str(), ','),
        None => return None,
    };
    let ghost all = text::texts(entries@);
    assert(all.skip(0) == all);
    let mut i: usize = 0;
    while i < entries.len()
        invariant
            i <= entries@.len(),
            all == text::texts(entries@),
            next_of(all) == next_of(all.skip(i as int)),
            following(text::opt_text(*link)) == next_of(all),
        decreases entries@.len() - i,
    {
        let entry = entries[i].as_str();
        assert(all.skip(i as int)[0] == entry@);
        assert(all.skip(i as int).skip(1) == all.skip(i as int + 1));
        match entry_target(entry) {
            Some(url) => return Some(url),
            None => {},
        }
        i = i + 1;
    }
    assert(all.skip(i as int).len() == 0);
    None
}

/// The message of a reply that reports a failure: the one in its body, where
/// there is one, or else the whole body.
pub open spec fn refusal(
    reply: HttpReplyView,
    message: Option<Seq<char>>,
    context: Seq<char>,
) -> Seq<char> {
    "github "@ + rest::status_display(reply.status) + " during "@ + context + ": "@ + (
    match message {
        Some(m) => m,
        None => reply.body,
    })
}

/// What a reply means. `message` is what the body of a failure says, where it
/// is an object with a message.
pub fn classify(reply: &HttpReply, message: &Option<String>, context: &str) -> (r: AdapterResult<
    (),
>)
    requires
        100 <= reply.status <= 999,
    ensures
        match r {
            Ok(_) => rest::is_success(reply.status),
            Err(e) => !rest::is_success(reply.status) && e@ == rest::failure(
                reply.status,
                reply@.remaining == Some("0"@),
                refusal(reply@, text::opt_text(*message), context@),
            ),
        },
        r is Ok <==> 200 <= reply.status <= 299,
{
    if 200 <= reply.status && reply.status < 300 {
        return Ok(());
    }
    let exhausted = match &reply.remaining {
        Some(v) => text_eq(v.as_str(), "0"),
        None => false,
    };
    let said = match message {
        Some(m) => m.as_str(),
        None => reply.body.as_str(),
    };
    let detail = "github ".to_owned().concat(status_text(reply.status).as_str()).concat(
        " during ",
    ).concat(context).concat(": ").concat(said);
    Err(fail(reply.status, exhausted, detail))
}

/// The error of an exchange in which no reply came back.
pub fn lost(context: &str, cause: &str) -> (r: AdapterError)
    ensures
        r@ == AdapterErrorView::Transient("network error during "@ + context@ + ": "@ + cause@),
{
    AdapterError::Transient(
        "network error during ".to_owned().concat(context).concat(": ").concat(cause),
    )
}

/// The error of a reply that is not what was asked for.
pub fn invalid_reply(context: &str, cause: &str) -> (r: AdapterError)
    ensures
        r@ == AdapterErrorView::Permanent("parsing "@ + context@ + " response: "@ + cause@),
{
    AdapterError::Permanent(
        "parsing ".to_owned().concat(context).concat(" response: ").concat(cause),
    )
}

/// What a page of a list held.
pub enum Page<T> {
    /// No list where one was expected.
    NoList,
    /// A list with an item that does not parse, and why.
    BadItem(String),
    Items(Vec<T>),
}

/// A list that comes page by page: what was collected, and the page to get
/// next.
pub struct Pages<T> {
    pub items: Vec<T>,
    pub next: Option<String>,
}

impl<T> Pages<T> {
    /// Adds the page that came back for `next`, with its `Link` header.
    pub fn add_page(self, link: &Option<String>, page: Page<T>, context: &str) -> (r: AdapterResult<
        Pages<T>,
    >)
        ensures
            match (page, r) {
                (Page::NoList, Err(e)) => e@ == AdapterErrorView::Permanent(
                    "unexpected "@ + context@ + " payload shape"@,
                ),
                (Page::BadItem(cause), Err(e)) => e@ == AdapterErrorView::Permanent(
                    "parsing "@ + context@ + " item: "@ + cause@,
                ),
                (Page::Items(items), Ok(pages)) => pages.items@ == self.items@ + items@
                    && text::opt_text(pages.next) == following(text::opt_text(*link)),
                _ => false,
            },
    {
        match page {
            Page::NoList => Err(
                AdapterError::Permanent(
                    "unexpected ".to_owned().concat(context).concat(" payload shape"),
                ),
            ),
            Page::BadItem(cause) => Err(
                AdapterError::Permanent(
                    "parsing ".to_owned().concat(context).concat(" item: ").concat(
                        cause.as_str(),
                    ),
                ),
            ),
            Page::Items(new) => {
                let mut items = self.items;
                let mut new = new;
                items.append(&mut new);
                Ok(Pages { items, next: next_link(link) })
            },
        }
    }
}

// ---------------------------------------------------------------------------
// The forge

pub struct GithubForge {
    /// API root without a trailing slash.
    pub base_url: String,
    pub token: Secret,
}

/// A list to get in full: where it starts, what wraps it, and what messages
/// call it.
#[derive(Debug, PartialEq, Eq)]
pub struct ListQuery {
    pub path: String,
    pub wrapper: Option<&'static str>,
    pub context: &'static str,
}

#[verifier::ext_equal]
pub struct ListQueryView {
    pub path: Seq<char>,
    pub wrapper: Option<Seq<char>>,
    pub context: Seq<char>,
}

impl View for ListQuery {
    type V = ListQueryView;

    open spec fn view(&self) -> ListQueryView {
        ListQueryView {
            path: self.path@,
            wrapper: text::opt_str_text(self.wrapper),
            context: self.context@,
        }
    }
}

pub open spec fn query_views(v: Seq<ListQuery>) -> Seq<ListQueryView> {
    Seq::new(v.len(), |i: int| v[i]@)
}

/// `/repos/<repo>/<kind>/<number>`
pub open spec fn pr_path(pr: PrRefView, kind: Seq<char>) -> Seq<char> {
    "/repos/"@ + pr.repo + "/"@ + kind + "/"@ + text::int_text(pr.number)
}

/// The lists that a snapshot is made of.
pub open spec fn snapshot_lists(pr: PrRefView, head_sha: Seq<char>) -> Seq<ListQueryView> {
    seq![
        ListQueryView {
            path: "/repos/"@ + pr.repo + "/commits/"@ + head_sha + "/check-runs"@,
            wrapper: Some("check_runs"@),
            context: "pr_snapshot check-runs"@,
        },
        ListQueryView {
            path: pr_path(pr, "pulls"@) + "/reviews"@,
            wrapper: None,
            context: "pr_snapshot reviews"@,
        },
        ListQueryView {
            path: pr_path(pr, "issues"@) + "/comments"@,
            wrapper: None,
            context: "pr_snapshot issue comments"@,
        },
        ListQueryView {
            path: pr_path(pr, "pulls"@) + "/comments"@,
            wrapper: None,
            context: "pr_snapshot review comments"@,
        },
    ]
}

/// A pull request as its parts tell it. A merge shows in `merged_at`, whatever
/// the state says; conversation and review comments form one list by time.
pub open spec fn snapshot_of(
    pr: PrRefView,
    pull: Pull,
    checks: Seq<ApiCheckRun>,
    reviews: Seq<ApiReview>,
    issue_comments: Seq<ApiComment>,
    review_comments: Seq<ApiComment>,
) -> PrSnapshotView {
    PrSnapshotView {
        pr,
        state: if pull.merged_at is Some {
            "merged"@
        } else {
            pull.state@
        },
        draft: pull.draft,
        base: pull.base@,
        head_sha: pull.head_sha@,
        mergeable: pull.mergeable,
        checks: Seq::new(checks.len(), |i: int| check_of(checks[i])),
        reviews: Seq::new(reviews.len(), |i: int| review_of(reviews[i])),
        comments: arranged(comments_of(issue_comments) + comments_of(review_comments)),
    }
}

pub open spec fn merge_text(m: MergeMethod) -> Seq<char> {
    match m {
        MergeMethod::Merge => "merge"@,
        MergeMethod::Squash => "squash"@,
        MergeMethod::Rebase => "rebase"@,
    }
}

/// The body that creates a pull request.
pub open spec fn creation_json(d: PrDraftView) -> JsonView {
    JsonView::Object(
        seq![
            ("base"@, JsonView::Str(d.base)),
            ("body"@, JsonView::Str(d.body)),
            ("draft"@, JsonView::Bool(d.draft)),
            ("head"@, JsonView::Str(d.head)),
            ("title"@, JsonView::Str(d.title)),
        ],
    )
}

fn pull_path(pr: &PrRef, kind: &str) -> (r: String)
    ensures
        r@ == pr_path(pr@, kind@),
{
    "/repos/".to_owned().concat(pr.repo.as_str()).concat("/").concat(kind).concat("/").concat(
        u64_string(pr.number).as_str(),
    )
}

impl GithubForge {
    /// A trailing slash of `base_url` is tolerated.
    pub fn new(base_url: String, token: Secret) -> (r: GithubForge)
        ensures
            r.base_url@ == text::trimmed_end(base_url@, text::only('/')),
            r.token == token,
    {
        GithubForge { base_url: trim_end_char(base_url.as_str(), '/'), token }
    }

    pub fn url(&self, path: &str) -> (r: String)
        ensures
            r@ == self.base_url@ + path@,
    {
        self.base_url.clone().concat(path)
    }

    /// The request for a resource.
    pub fn get_request(&self, url: String) -> (r: HttpRequest)
        ensures
            r@ == rest::request_of(HttpMethod::Get, url@, self.token@, None),
    {
        request(HttpMethod::Get, url, self.token.expose(), None)
    }

    /// A list before its first page.
    pub fn get_paged<T>(&self, path: &str) -> (r: Pages<T>)
        ensures
            r.items@ == Seq::<T>::empty(),
            text::opt_text(r.next) == Some(self.base_url@ + path@ + "?per_page=100"@),
    {
        Pages { items: Vec::new(), next: Some(self.url(path).concat("?per_page=100")) }
    }

    /// The request that creates a pull request.
    pub fn create_pr(&self, draft: &PrDraft) -> (r: HttpRequest)
        ensures
            r@ == rest::request_of(
                HttpMethod::Post,
                self.base_url@ + "/repos/"@ + draft.repo@ + "/pulls"@,
                self.token@,
                Some(creation_json(draft@)),
            ),
    {
        let path = "/repos/".to_owned().concat(draft.repo.as_str()).concat("/pulls");
        let fields = Fields::new().with("base", Json::text(draft.base.as_str())).with(
            "body",
            Json::text(draft.body.as_str()),
        ).with("draft", Json::Bool(draft.draft)).with("head", Json::text(draft.head.as_str())).with(
            "title",
            Json::text(draft.title.as_str()),
        );
        assert(fields@ == seq![
            ("base"@, JsonView::Str(draft.base@)),
            ("body"@, JsonView::Str(draft.body@)),
            ("draft"@, JsonView::Bool(draft.draft)),
            ("head"@, JsonView::Str(draft.head@)),
            ("title"@, JsonView::Str(draft.title@)),
        ]);
        let url = self.url(path.as_str());
        assert(url@ == self.base_url@ + "/repos/"@ + draft.repo@ + "/pulls"@);
        request(HttpMethod::Post, url, self.token.expose(), Some(fields.done()))
    }

    /// Where a pull request is found.
    pub fn pull_url(&self, pr: &PrRef) -> (r: String)
        ensures
            r@ == self.base_url@ + pr_path(pr@, "pulls"@),
    {
        self.url(pull_path(pr, "pulls").as_str())
    }

    /// The lists that a snapshot is made of: check runs, reviews, and the two
    /// kinds of comments.
    pub fn snapshot_queries(&self, pr: &PrRef, head_sha: &str) -> (r: Vec<ListQuery>)
        ensures
            query_views(r@) == snapshot_lists(pr@, head_sha@),
    {
        let out: Vec<ListQuery> = vec![
            ListQuery {
                path: "/repos/".to_owned().concat(pr.repo.as_str()).concat("/commits/").concat(
                    head_sha,
                ).concat("/check-runs"),
                wrapper: Some("check_runs"),
                context: "pr_snapshot check-runs",
            },
            ListQuery {
                path: pull_path(pr, "pulls").concat("/reviews"),
                wrapper: None,
                context: "pr_snapshot reviews",
            },
            ListQuery {
                path: pull_path(pr, "issues").concat("/comments"),
                wrapper: None,
                context: "pr_snapshot issue comments",
            },
            ListQuery {
                path: pull_path(pr, "pulls").concat("/comments"),
                wrapper: None,
                context: "pr_snapshot review comments",
            },
        ];
        assert(query_views(out@) == snapshot_lists(pr@, head_sha@));
        out
    }

    /// One consistent snapshot of a pull request, from what its queries
    /// brought.
    pub fn pr_snapshot(
        &self,
        pr: &PrRef,
        pull: Pull,
        checks: Vec<ApiCheckRun>,
        reviews: Vec<ApiReview>,
        issue_comments: Vec<ApiComment>,
        review_comments: Vec<ApiComment>,
    ) -> (r: PrSnapshot)
        ensures
            r@ == snapshot_of(
                pr@,
                pull,
                checks@,
                reviews@,
                issue_comments@,
                review_comments@,
            ),
            r.mergeable == pull.mergeable,
            r.draft == pull.draft,
            r.base@ == pull.base@,
            r.head_sha@ == pull.head_sha@,
            r.pr.repo@ == pr.repo@,
            r.pr.number == pr.number,
            pull.merged_at is Some ==> r.state@ == "merged"@,
            pull.merged_at is None ==> r.state@ == pull.state@,
            r.checks@.len() == checks@.len(),
            r.reviews@.len() == reviews@.len(),
            r.comments@.len() == issue_comments@.len() + review_comments@.len(),
    {
        let mut check_runs: Vec<CheckRun> = Vec::new();
        let mut i: usize = 0;
        while i < checks.len()
            invariant
                i <= checks@.len(),
                check_runs@.len() == i,
                forall|k: int| 0 <= k < i ==> (#[trigger] check_runs@[k])@ == check_of(checks@[k]),
            decreases checks@.len() - i,
        {
            check_runs.push(checks[i].into_check_run());
            i = i + 1;
        }
        let mut verdicts: Vec<Review> = Vec::new();
        let mut j: usize = 0;
        while j < reviews.len()
            invariant
                j <= reviews@.len(),
                verdicts@.len() == j,
                forall|k: int| 0 <= k < j ==> (#[trigger] verdicts@[k])@ == review_of(reviews@[k]),
            decreases reviews@.len() - j,
        {
            verdicts.push(reviews[j].into_review());
            j = j + 1;
        }
        let none: Vec<PrComment> = Vec::new();
        assert(adapters::comment_views(none@) == arranged(Seq::empty()));
        let first = arrange(none, &issue_comments, Ghost(Seq::empty()));
        let ghost had = comments_of(issue_comments@);
        assert(Seq::<PrCommentView>::empty() + had == had);
        let comments = arrange(first, &review_comments, Ghost(had));
        let state = match pull.merged_at {
            Some(_) => "merged".to_owned(),
            None => pull.state,
        };
        let r = PrSnapshot {
            pr: pr.clone(),
            state,
            draft: pull.draft,
            base: pull.base,
            head_sha: pull.head_sha,
            mergeable: pull.mergeable,
            checks: check_runs,
            reviews: verdicts,
            comments,
        };
        assert(r@.checks == Seq::new(checks@.len(), |i: int| check_of(checks@[i])));
        assert(r@.reviews == Seq::new(reviews@.len(), |i: int| review_of(reviews@[i])));
        proof {
            let told = comments_of(issue_comments@) + comments_of(review_comments@);
            lemma_comments_are_arranged(told);
            told.to_multiset_ensures();
            arranged(told).to_multiset_ensures();
            assert(adapters::comment_views(r.comments@).len() == told.len());
        }
        r
    }

    /// The request that comments on a pull request.
    pub fn post_comment(&self, pr: &PrRef, body: &str) -> (r: HttpRequest)
        ensures
            r@ == rest::request_of(
                HttpMethod::Post,
                self.base_url@ + (pr_path(pr@, "issues"@) + "/comments"@),
                self.token@,
                Some(JsonView::Object(seq![("body"@, JsonView::Str(body@))])),
            ),
    {
        let path = pull_path(pr, "issues").concat("/comments");
        let fields = Fields::new().with("body", Json::text(body));
        assert(fields@ == seq![("body"@, JsonView::Str(body@))]);
        request(
            HttpMethod::Post,
            self.url(path.as_str()),
            self.token.expose(),
            Some(fields.done()),
        )
    }

    /// The request that merges a pull request.
    pub fn merge(&self, pr: &PrRef, method: MergeMethod) -> (r: HttpRequest)
        ensures
            r@ == rest::request_of(
                HttpMethod::Put,
                self.base_url@ + (pr_path(pr@, "pulls"@) + "/merge"@),
                self.token@,
                Some(JsonView::Object(seq![("merge_method"@, JsonView::Str(merge_text(method)))])),
            ),
    {
        let how = match method {
            MergeMethod::Merge => "merge",
            MergeMethod::Squash => "squash",
            MergeMethod::Rebase => "rebase",
        };
        let path = pull_path(pr, "pulls").concat("/merge");
        let fields = Fields::new().with("merge_method", Json::text(how));
        assert(fields@ == seq![("merge_method"@, JsonView::Str(how@))]);
        request(HttpMethod::Put, self.url(path.as_str()), self.token.expose(), Some(fields.done()))
    }
}

/// The pull request that a creation brought.
pub fn created_pr(draft: &PrDraft, number: u64) -> (r: PrRef)
    ensures
        r@ == (PrRefView { repo: draft.repo@, number: number as int }),
{
    PrRef { repo: draft.repo.clone(), number }
}

/// The error of a client that cannot be built.
pub fn no_client(cause: &str) -> (r: AdapterError)
    ensures
        r@ == AdapterErrorView::Permanent("building http client: "@ + cause@),
{
    AdapterError::Permanent("building http client: ".to_owned().concat(cause))
}

} // verus!
