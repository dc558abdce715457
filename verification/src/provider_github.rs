//! Tickets from GitHub issues.
//!
//! GitHub declares no "blocked by" relation, so a convention on the body of an
//! issue stands in for it: a line that is nothing but `Blocked by #N` (same
//! repository) or `Blocked by owner/repo#N` declares a dependency, whatever the
//! case of its letters. Anything else on the line disqualifies it.
//!
//! Ticket keys are `owner/repo#N`.

use crate::adapters;
use crate::adapters::{
    AdapterError, AdapterErrorView, AdapterResult, Secret, Ticket, TicketKey, TicketKeyView,
    TicketView, TrackerTransition,
};
use crate::json::{Fields, Json, JsonView};
use crate::rest;
use crate::rest::{
    fail, request, status_text, HttpMethod, HttpReply, HttpReplyView, HttpRequest, HttpRequestView,
};
use crate::text;
use crate::text::{
    chars_of, contains_char, copy_opt, debug_quoted, eq_ignore_case, has_white_space, lines,
    opens_with_char, parse_u64, split, split_once, string_between, strip_prefix, text_eq, trim,
    trim_end_char, u64_string,
};
use vstd::prelude::*;
use vstd::string::*;

verus! {

/// How many characters of a reply's body a message quotes.
pub const BODY_SNIPPET_LEN: usize = 200;

/// An issue, as far as it becomes a ticket.
#[derive(Debug, PartialEq, Eq)]
pub struct Issue {
    pub number: u64,
    pub title: String,
    pub body: Option<String>,
    pub state: String,
    /// Login of the assignee.
    pub assignee: Option<String>,
    pub html_url: String,
    /// Whether the item is a pull request: lists of issues hold those too.
    pub pull_request: bool,
}

#[verifier::ext_equal]
pub struct IssueView {
    pub number: int,
    pub title: Seq<char>,
    pub body: Option<Seq<char>>,
    pub state: Seq<char>,
    pub assignee: Option<Seq<char>>,
    pub html_url: Seq<char>,
    pub pull_request: bool,
}

impl View for Issue {
    type V = IssueView;

    open spec fn view(&self) -> IssueView {
        IssueView {
            number: self.number as int,
            title: self.title@,
            body: text::opt_text(self.body),
            state: self.state@,
            assignee: text::opt_text(self.assignee),
            html_url: self.html_url@,
            pull_request: self.pull_request,
        }
    }
}

pub open spec fn issue_views(v: Seq<Issue>) -> Seq<IssueView> {
    Seq::new(v.len(), |i: int| v[i]@)
}

// ---------------------------------------------------------------------------
// References

/// The number that digits alone write.
pub open spec fn issue_number(s: Seq<char>) -> Option<int> {
    match text::unsigned_denoted(s) {
        Some(n) => if n <= u64::MAX {
            Some(n)
        } else {
            None
        },
        None => None,
    }
}

fn parse_issue_number(s: &str) -> (r: Option<u64>)
    ensures
        r == match issue_number(s@) {
            Some(n) => Some(n as u64),
            None => None,
        },
{
    if opens_with_char(s, '+') {
        return None;
    }
    parse_u64(s)
}

/// The repository and the number that `owner/repo#N` names. There is no white
/// space in an owner or a repository, and no sign before a number.
pub open spec fn reference(s: Seq<char>) -> Option<(Seq<char>, int)> {
    match text::cut_at(s, '#') {
        None => None,
        Some((repo, num)) => match text::cut_at(repo, '/') {
            None => None,
            Some((owner, name)) => if owner.len() == 0 || name.len() == 0 || name.contains('/')
                || text::has_white(repo) {
                None
            } else {
                match issue_number(num) {
                    None => None,
                    Some(n) => Some((repo, n)),
                }
            },
        },
    }
}

/// `owner/repo#N` as the repository and the number; `None` on any malformation.
pub fn split_ref(s: &str) -> (r: Option<(String, u64)>)
    ensures
        match (r, reference(s@)) {
            (Some((repo, n)), Some((v, m))) => repo@ == v && n == m,
            (None, None) => true,
            _ => false,
        },
{
    match split_once(s, '#') {
        None => None,
        Some((repo, num)) => match split_once(repo.as_str(), '/') {
            None => None,
            Some((owner, name)) => {
                if chars_of(owner.as_str()).len() == 0 || chars_of(name.as_str()).len() == 0
                    || contains_char(name.as_str(), '/') || has_white_space(repo.as_str()) {
                    return None;
                }
                match parse_issue_number(num.as_str()) {
                    None => None,
                    Some(n) => Some((repo, n)),
                }
            },
        },
    }
}

/// The key of issue `n` of a repository.
pub open spec fn key_text(repo: Seq<char>, n: int) -> Seq<char> {
    repo + "#"@ + text::int_text(n)
}

/// The key that one line of a body declares as a dependency.
pub open spec fn dependency(line: Seq<char>, repo: Seq<char>) -> Option<Seq<char>> {
    let s = text::trimmed(line);
    let prefix = "blocked by "@;
    if s.len() < prefix.len() || !text::same_ignoring_case(s.take(prefix.len() as int), prefix) {
        None
    } else {
        let rest = text::trimmed(s.skip(prefix.len() as int));
        match text::after_prefix(rest, "#"@) {
            Some(num) => match issue_number(num) {
                Some(n) => Some(key_text(repo, n)),
                None => None,
            },
            None => match reference(rest) {
                Some((other, n)) => Some(key_text(other, n)),
                None => None,
            },
        }
    }
}

/// The dependencies that lines declare, in their order.
pub open spec fn dependencies(
    body: Seq<Seq<char>>,
    provider: Seq<char>,
    repo: Seq<char>,
) -> Seq<TicketKeyView>
    decreases body.len(),
{
    if body.len() == 0 {
        Seq::empty()
    } else {
        let before = dependencies(body.drop_last(), provider, repo);
        match dependency(body.last(), repo) {
            Some(key) => before.push(TicketKeyView { provider, key }),
            None => before,
        }
    }
}

/// The key that one line of a body declares as a dependency.
pub fn parse_dependency(line: &str, repo: &str) -> (r: Option<String>)
    ensures
        text::opt_text(r) == dependency(line@, repo@),
{
    let line = trim(line);
    let prefix = "blocked by ";
    let chars = chars_of(line.as_str());
    let width: usize = chars_of(prefix).len();
    if chars.len() < width {
        return None;
    }
    let head = string_between(&chars, 0, width);
    assert(head@ == line@.take(prefix@.len() as int));
    if !eq_ignore_case(head.as_str(), prefix) {
        return None;
    }
    let tail = string_between(&chars, width, chars.len());
    assert(tail@ == line@.skip(prefix@.len() as int));
    let rest = trim(tail.as_str());
    match strip_prefix(rest.as_str(), "#") {
        Some(num) => match parse_issue_number(num.as_str()) {
            Some(n) => Some(repo.to_owned().concat("#").concat(u64_string(n).as_str())),
            None => None,
        },
        None => match split_ref(rest.as_str()) {
            Some((other, n)) => Some(other.concat("#").concat(u64_string(n).as_str())),
            None => None,
        },
    }
}

/// Writing a reference and reading it back gives the repository and the number.
pub proof fn lemma_reference_round_trip(owner: Seq<char>, name: Seq<char>, n: int)
    requires
        owner.len() > 0 && name.len() > 0,
        !owner.contains('#') && !name.contains('#'),
        !owner.contains('/') && !name.contains('/'),
        !text::has_white(owner) && !text::has_white(name),
        0 <= n <= u64::MAX,
    ensures
        reference(key_text(owner + "/"@ + name, n)) == Some((owner + "/"@ + name, n)),
{
    let repo = owner + "/"@ + name;
    let s = key_text(repo, n);
    reveal_strlit("/");
    reveal_strlit("#");
    assert forall|j: int| 0 <= j < repo.len() implies repo[j] != '#' by {
        if j < owner.len() {
            assert(owner.contains(owner[j]));
            assert(repo[j] == owner[j]);
        } else if j > owner.len() {
            assert(name.contains(name[j - owner.len() - 1]));
            assert(repo[j] == name[j - owner.len() - 1]);
        }
    }
    assert(s[repo.len() as int] == '#');
    assert forall|j: int| 0 <= j < repo.len() implies s[j] != '#' by {
        assert(s[j] == repo[j]);
    }
    text::lemma_first_at(s, '#', repo.len() as int);
    assert(s.take(repo.len() as int) == repo);
    assert(s.skip(repo.len() as int + 1) == text::int_text(n));
    assert forall|j: int| 0 <= j < owner.len() implies repo[j] != '/' by {
        assert(owner.contains(owner[j]));
        assert(repo[j] == owner[j]);
    }
    assert forall|j: int| 0 <= j < repo.len() implies !text::is_white_space(#[trigger] repo[j]) by {
        if j < owner.len() {
            assert(repo[j] == owner[j]);
        } else if j > owner.len() {
            assert(repo[j] == name[j - owner.len() - 1]);
        }
    }
    text::lemma_first_at(repo, '/', owner.len() as int);
    assert(repo.take(owner.len() as int) == owner);
    assert(repo.skip(owner.len() as int + 1) == name);
    text::lemma_int_text_denotes(n);
}

// ---------------------------------------------------------------------------
// Replies

/// The first characters of a body, with an ellipsis where there are more.
pub open spec fn snippet_of(body: Seq<char>) -> Seq<char> {
    if body.len() > BODY_SNIPPET_LEN {
        body.take(BODY_SNIPPET_LEN as int) + "…"@
    } else {
        body
    }
}

pub fn snippet(body: &str) -> (r: String)
    ensures
        r@ == snippet_of(body@),
{
    let chars = chars_of(body);
    if chars.len() > BODY_SNIPPET_LEN {
        let head = string_between(&chars, 0, BODY_SNIPPET_LEN);
        assert(head@ == body@.take(BODY_SNIPPET_LEN as int));
        head.concat("…")
    } else {
        body.to_owned()
    }
}

/// The message of a reply that reports a failure.
pub open spec fn refusal(method: HttpMethod, url: Seq<char>, reply: HttpReplyView) -> Seq<char> {
    rest::method_text(method) + " "@ + url + ": HTTP "@ + rest::status_display(reply.status) + ": "@
        + snippet_of(reply.body)
}

/// Whether a reply says that no requests are left.
pub open spec fn quota_exhausted(remaining: Option<Seq<char>>) -> bool {
    remaining matches Some(v) && text::trimmed(v) == "0"@
}

/// What a reply means: a success is let through; server trouble, too many
/// requests and an exhausted quota may be retried; nothing else may.
pub fn classify(method: HttpMethod, url: &str, reply: &HttpReply) -> (r: AdapterResult<()>)
    requires
        100 <= reply.status <= 999,
    ensures
        match r {
            Ok(_) => rest::is_success(reply.status),
            Err(e) => !rest::is_success(reply.status) && e@ == rest::failure(
                reply.status,
                quota_exhausted(reply@.remaining),
                refusal(method, url@, reply@),
            ),
        },
        r is Ok <==> 200 <= reply.status <= 299,
{
    if 200 <= reply.status && reply.status < 300 {
        return Ok(());
    }
    let exhausted = match &reply.remaining {
        Some(v) => text_eq(trim(v.as_str()).as_str(), "0"),
        None => false,
    };
    let message = method.as_str().to_owned().concat(" ").concat(url).concat(": HTTP ").concat(
        status_text(reply.status).as_str(),
    ).concat(": ").concat(snippet(reply.body.as_str()).as_str());
    Err(fail(reply.status, exhausted, message))
}

/// Whether one entry of a `Link` header leads to the next page.
pub open spec fn leads_on(entry: Seq<char>) -> bool {
    let segments = text::pieces(entry, ';');
    exists|i: int|
        1 <= i < segments.len() && text::same_ignoring_case(
            text::trimmed(#[trigger] segments[i]),
            "rel=\"next\""@,
        )
}

/// What stands between the angle brackets at the start of an entry.
pub open spec fn target(entry: Seq<char>) -> Option<Seq<char>> {
    let t = text::trimmed(text::pieces(entry, ';')[0]);
    if t.len() >= 2 && t[0] == '<' && t.last() == '>' {
        Some(t.subrange(1, t.len() - 1))
    } else {
        None
    }
}

/// The target of the first entry that leads to the next page.
pub open spec fn next_of(entries: Seq<Seq<char>>) -> Option<Seq<char>>
    decreases entries.len(),
{
    if entries.len() == 0 {
        None
    } else if leads_on(entries[0]) {
        target(entries[0])
    } else {
        next_of(entries.skip(1))
    }
}

fn entry_leads_on(segments: &Vec<String>, entry: &str) -> (r: bool)
    requires
        text::texts(segments@) == text::pieces(entry@, ';'),
    ensures
        r == leads_on(entry@),
{
    let ghost all = text::pieces(entry@, ';');
    let mut i: usize = 1;
    while i < segments.len()
        invariant
            1 <= i,
            all == text::texts(segments@),
            all == text::pieces(entry@, ';'),
            forall|k: int|
                1 <= k < i && k < all.len() ==> !text::same_ignoring_case(
                    text::trimmed(#[trigger] all[k]),
                    "rel=\"next\""@,
                ),
        decreases segments@.len() - i,
    {
        let segment = trim(segments[i].as_str());
        assert(all[i as int] == segments@[i as int]@);
        if eq_ignore_case(segment.as_str(), "rel=\"next\"") {
            return true;
        }
        i = i + 1;
    }
    false
}

fn entry_target(first: &str) -> (r: Option<String>)
    ensures
        text::opt_text(r) == ({
            let t = text::trimmed(first@);
            if t.len() >= 2 && t[0] == '<' && t.last() == '>' {
                Some(t.subrange(1, t.len() - 1))
            } else {
                None
            }
        }),
{
    let chars = chars_of(trim(first).as_str());
    let n: usize = chars.len();
    if n >= 2 && chars[0] == '<' && chars[n - 1] == '>' {
        Some(string_between(&chars, 1, n - 1))
    } else {
        None
    }
}

/// The page that a `Link` header names as the next one.
pub fn parse_next_link(header: &str) -> (r: Option<String>)
    ensures
        text::opt_text(r) == next_of(text::pieces(header@, ',')),
{
    let entries = split(header, ',');
    let ghost all = text::pieces(header@, ',');
    assert(all.skip(0) == all);
    let mut i: usize = 0;
    while i < entries.len()
        invariant
            i <= entries@.len(),
            all == text::texts(entries@),
            next_of(all) == next_of(all.skip(i as int)),
            all == text::pieces(header@, ','),
        decreases entries@.len() - i,
    {
        let entry = entries[i].as_str();
        assert(all[i as int] == entry@);
        assert(all.skip(i as int)[0] == entry@);
        assert(all.skip(i as int).skip(1) == all.skip(i as int + 1));
        let segments = split(entry, ';');
        if segments.len() > 0 {
            assert(text::pieces(entry@, ';')[0] == segments@[0]@);
            if entry_leads_on(&segments, entry) {
                return entry_target(segments[0].as_str());
            }
        } else {
            assert(text::pieces(entry@, ';').len() == 0);
        }
        i = i + 1;
    }
    assert(all.skip(i as int).len() == 0);
    None
}

// ---------------------------------------------------------------------------
// The provider

/// The tickets of one configured provider. Requests are plain data; whoever
/// sends them hands the replies back.
pub struct GithubProvider {
    /// Config name of this provider; becomes the provider of its keys.
    pub provider: String,
    /// API root without a trailing slash.
    pub base_url: String,
    pub token: Secret,
    /// Login whose assigned issues `my_tickets` collects.
    pub user: String,
    /// `owner/name` repositories that `my_tickets` scans.
    pub repos: Vec<String>,
}

/// The ticket that an issue of a repository is.
pub open spec fn ticket_of(provider: Seq<char>, repo: Seq<char>, issue: IssueView) -> TicketView {
    let body = match issue.body {
        Some(b) => b,
        None => Seq::empty(),
    };
    TicketView {
        key: TicketKeyView { provider, key: key_text(repo, issue.number) },
        title: issue.title,
        body,
        status: issue.state,
        assignee: issue.assignee,
        url: issue.html_url,
        blocked_by: dependencies(text::line_texts(body), provider, repo),
    }
}

/// The tickets on one page of issues, without the pull requests.
pub open spec fn page_tickets(
    provider: Seq<char>,
    repo: Seq<char>,
    page: Seq<IssueView>,
) -> Seq<TicketView>
    decreases page.len(),
{
    if page.len() == 0 {
        Seq::empty()
    } else {
        let before = page_tickets(provider, repo, page.drop_last());
        if page.last().pull_request {
            before
        } else {
            before.push(ticket_of(provider, repo, page.last()))
        }
    }
}

pub open spec fn ticket_views(v: Seq<Ticket>) -> Seq<TicketView> {
    Seq::new(v.len(), |i: int| v[i]@)
}

/// Every ticket of a page belongs to the provider and comes from an issue of
/// the page that is no pull request.
pub proof fn lemma_pull_requests_are_no_tickets(
    provider: Seq<char>,
    repo: Seq<char>,
    page: Seq<IssueView>,
)
    ensures
        forall|i: int|
            0 <= i < page_tickets(provider, repo, page).len() ==> exists|k: int|
                0 <= k < page.len() && !(#[trigger] page[k]).pull_request && (
                #[trigger] page_tickets(provider, repo, page)[i]) == ticket_of(
                    provider,
                    repo,
                    page[k],
                ),
        forall|k: int|
            0 <= k < page.len() && !(#[trigger] page[k]).pull_request ==> page_tickets(
                provider,
                repo,
                page,
            ).contains(ticket_of(provider, repo, page[k])),
    decreases page.len(),
{
    if page.len() > 0 {
        let init = page.drop_last();
        lemma_pull_requests_are_no_tickets(provider, repo, init);
        let before = page_tickets(provider, repo, init);
        let all = page_tickets(provider, repo, page);
        assert forall|i: int| 0 <= i < all.len() implies exists|k: int|
            0 <= k < page.len() && !(#[trigger] page[k]).pull_request && (#[trigger] all[i])
                == ticket_of(provider, repo, page[k]) by {
            if i < before.len() {
                assert(all[i] == before[i]);
                let k = choose|k: int|
                    0 <= k < init.len() && !(#[trigger] init[k]).pull_request && before[i]
                        == ticket_of(provider, repo, init[k]);
                assert(page[k] == init[k]);
            } else {
                assert(page[page.len() - 1] == page.last());
            }
        }
        assert forall|k: int| 0 <= k < page.len() && !(
        #[trigger] page[k]).pull_request implies all.contains(
            ticket_of(provider, repo, page[k]),
        ) by {
            if k < init.len() {
                assert(init[k] == page[k]);
                let t = ticket_of(provider, repo, page[k]);
                let i = choose|i: int| 0 <= i < before.len() && #[trigger] before[i] == t;
                assert(all[i] == t);
            } else {
                assert(all[all.len() - 1] == ticket_of(provider, repo, page[k]));
            }
        }
    }
}

/// Where the issue that a key names is found.
pub open spec fn issue_location(base_url: Seq<char>, key: Seq<char>) -> Result<
    Seq<char>,
    AdapterErrorView,
> {
    match reference(key) {
        Some((repo, n)) => Ok(base_url + "/repos/"@ + repo + "/issues/"@ + text::int_text(n)),
        None => Err(
            AdapterErrorView::Permanent(
                "invalid GitHub ticket key "@ + text::debug_text(key) + ": expected owner/repo#N"@,
            ),
        ),
    }
}

/// The first page of a repository's issues.
pub open spec fn list_location(base_url: Seq<char>, repo: Seq<char>, user: Seq<char>) -> Seq<char> {
    base_url + "/repos/"@ + repo + "/issues?assignee="@ + user + "&state=open&per_page=100"@
}

/// Where a scan over the repositories stands: the next page to get, and the
/// tickets found so far.
pub struct Scan {
    pub repo: usize,
    pub url: String,
    pub tickets: Vec<Ticket>,
}

pub enum ScanStep {
    Get(Scan),
    Done(Vec<Ticket>),
}

#[verifier::ext_equal]
pub enum ScanStepView {
    Get { repo: int, url: Seq<char>, tickets: Seq<TicketView> },
    Done(Seq<TicketView>),
}

impl View for ScanStep {
    type V = ScanStepView;

    open spec fn view(&self) -> ScanStepView {
        match *self {
            ScanStep::Get(s) => ScanStepView::Get {
                repo: s.repo as int,
                url: s.url@,
                tickets: ticket_views(s.tickets@),
            },
            ScanStep::Done(t) => ScanStepView::Done(ticket_views(t@)),
        }
    }
}

/// The first page of repository `i`, or the end after the last repository.
pub open spec fn scan_from(p: GithubProvider, i: int, tickets: Seq<TicketView>) -> ScanStepView {
    if i < p.repos@.len() {
        ScanStepView::Get {
            repo: i,
            url: list_location(p.base_url@, p.repos@[i]@, p.user@),
            tickets,
        }
    } else {
        ScanStepView::Done(tickets)
    }
}

/// What follows a page: its tickets are added, and the scan goes on with the
/// page after it or with the next repository.
pub open spec fn scanned(
    p: GithubProvider,
    i: int,
    tickets: Seq<TicketView>,
    page: Seq<IssueView>,
    link: Option<Seq<char>>,
) -> ScanStepView {
    let found = tickets + page_tickets(p.provider@, p.repos@[i]@, page);
    match following(link) {
        Some(url) => ScanStepView::Get { repo: i, url, tickets: found },
        None => scan_from(p, i + 1, found),
    }
}

/// The page after the one that a reply with this `Link` header brought.
pub open spec fn following(link: Option<Seq<char>>) -> Option<Seq<char>> {
    match link {
        Some(header) => next_of(text::pieces(header, ',')),
        None => None,
    }
}

/// The tracker transitions that a status allows.
pub open spec fn transitions_of(status: Seq<char>) -> Seq<(Seq<char>, Seq<char>)> {
    if status == "open"@ {
        seq![("close"@, "Close"@)]
    } else if status == "closed"@ {
        seq![("reopen"@, "Reopen"@)]
    } else {
        Seq::empty()
    }
}

pub open spec fn transition_views(v: Seq<TrackerTransition>) -> Seq<(Seq<char>, Seq<char>)> {
    Seq::new(v.len(), |i: int| (v[i].id@, v[i].name@))
}

/// The state that a transition leads to.
pub open spec fn state_after(transition: Seq<char>) -> Option<Seq<char>> {
    if transition == "close"@ {
        Some("closed"@)
    } else if transition == "reopen"@ {
        Some("open"@)
    } else {
        None
    }
}

/// The request that applies a transition to a ticket.
pub open spec fn transition_request(
    p: GithubProvider,
    key: TicketKeyView,
    transition: Seq<char>,
) -> Result<HttpRequestView, AdapterErrorView> {
    match state_after(transition) {
        None => Err(
            AdapterErrorView::Permanent(
                "unknown GitHub transition id "@ + text::debug_text(transition)
                    + " (expected \"close\" or \"reopen\")"@,
            ),
        ),
        Some(state) => match issue_location(p.base_url@, key.key) {
            Err(e) => Err(e),
            Ok(url) => Ok(
                rest::request_of(
                    HttpMethod::Patch,
                    url,
                    p.token@,
                    Some(JsonView::Object(seq![("state"@, JsonView::Str(state))])),
                ),
            ),
        },
    }
}

impl GithubProvider {
    pub fn new(
        provider: String,
        base_url: String,
        token: Secret,
        user: String,
        repos: Vec<String>,
    ) -> (r: GithubProvider)
        ensures
            r.provider == provider,
            r.base_url@ == text::trimmed_end(base_url@, text::only('/')),
            r.token == token,
            r.user == user,
            r.repos == repos,
    {
        let base_url = trim_end_char(base_url.as_str(), '/');
        GithubProvider { provider, base_url, token, user, repos }
    }

    /// The dependencies that a body declares.
    pub fn parse_blocked_by(&self, body: &str, repo: &str) -> (r: Vec<TicketKey>)
        ensures
            adapters::key_views(r@) == dependencies(
                text::line_texts(body@),
                self.provider@,
                repo@,
            ),
    {
        let all = lines(body);
        let ghost views = text::line_texts(body@);
        let mut out: Vec<TicketKey> = Vec::new();
        assert(adapters::key_views(out@) == dependencies(views.take(0), self.provider@, repo@));
        let mut i: usize = 0;
        while i < all.len()
            invariant
                i <= all@.len(),
                views == text::texts(all@),
                adapters::key_views(out@) == dependencies(
                    views.take(i as int),
                    self.provider@,
                    repo@,
                ),
            decreases all@.len() - i,
        {
            let ghost before = adapters::key_views(out@);
            assert(views.take(i as int + 1).drop_last() == views.take(i as int));
            assert(views.take(i as int + 1).last() == all@[i as int]@);
            match parse_dependency(all[i].as_str(), repo) {
                Some(key) => {
                    out.push(TicketKey { provider: self.provider.clone(), key });
                    assert(adapters::key_views(out@) == before.push(out@.last()@));
                },
                None => {},
            }
            i = i + 1;
        }
        assert(views.take(i as int) == views);
        out
    }

    /// The ticket that an issue of `repo` is.
    pub fn to_ticket(&self, repo: &str, issue: &Issue) -> (r: Ticket)
        ensures
            r@ == ticket_of(self.provider@, repo@, issue@),
            r.title@ == issue.title@,
            issue.body matches Some(body) ==> r.body@ == body@,
            r.status@ == issue.state@,
            text::opt_text(r.assignee) == text::opt_text(issue.assignee),
            r.url@ == issue.html_url@,
    {
        let body = match &issue.body {
            Some(b) => b.clone(),
            None => String::new(),
        };
        let blocked_by = self.parse_blocked_by(body.as_str(), repo);
        Ticket {
            key: TicketKey {
                provider: self.provider.clone(),
                key: repo.to_owned().concat("#").concat(u64_string(issue.number).as_str()),
            },
            title: issue.title.clone(),
            body,
            status: issue.state.clone(),
            assignee: copy_opt(&issue.assignee),
            url: issue.html_url.clone(),
            blocked_by,
        }
    }

    pub fn issue_url(&self, key: &TicketKey) -> (r: AdapterResult<String>)
        ensures
            match (r, issue_location(self.base_url@, key@.key)) {
                (Ok(a), Ok(b)) => a@ == b,
                (Err(a), Err(b)) => a@ == b,
                _ => false,
            },
    {
        match split_ref(key.key.as_str()) {
            Some((repo, n)) => Ok(
                self.base_url.clone().concat("/repos/").concat(repo.as_str()).concat(
                    "/issues/",
                ).concat(u64_string(n).as_str()),
            ),
            None => Err(
                AdapterError::Permanent(
                    "invalid GitHub ticket key ".to_owned().concat(
                        debug_quoted(key.key.as_str()).as_str(),
                    ).concat(": expected owner/repo#N"),
                ),
            ),
        }
    }

    /// The request for a page.
    pub fn page_request(&self, url: &str) -> (r: HttpRequest)
        ensures
            r@ == rest::request_of(HttpMethod::Get, url@, self.token@, None),
    {
        request(HttpMethod::Get, url.to_owned(), self.token.expose(), None)
    }

    fn scan(&self, i: usize, tickets: Vec<Ticket>) -> (r: ScanStep)
        requires
            i <= self.repos@.len(),
        ensures
            r@ == scan_from(*self, i as int, ticket_views(tickets@)),
    {
        if i < self.repos.len() {
            let url = self.base_url.clone().concat("/repos/").concat(
                self.repos[i].as_str(),
            ).concat("/issues?assignee=").concat(self.user.as_str()).concat(
                "&state=open&per_page=100",
            );
            ScanStep::Get(Scan { repo: i, url, tickets })
        } else {
            ScanStep::Done(tickets)
        }
    }

    /// First step of collecting the user's open tickets: the first page of the
    /// first repository.
    pub fn my_tickets(&self) -> (r: ScanStep)
        ensures
            r@ == scan_from(*self, 0, Seq::empty()),
    {
        let none: Vec<Ticket> = Vec::new();
        assert(ticket_views(none@) == Seq::<TicketView>::empty());
        self.scan(0, none)
    }

    /// A step of collecting tickets: `page` came back for the scan's page, with
    /// this `Link` header. A page that cannot be had ends the scan with its
    /// error, and this is not called.
    pub fn my_tickets_page(&self, scan: Scan, page: Vec<Issue>, link: Option<String>) -> (r:
        ScanStep)
        requires
            scan.repo < self.repos@.len(),
        ensures
            r@ == scanned(
                *self,
                scan.repo as int,
                ticket_views(scan.tickets@),
                issue_views(page@),
                text::opt_text(link),
            ),
    {
        let repo_index: usize = scan.repo;
        assert(repo_index < self.repos.len());
        let mut tickets = scan.tickets;
        let ghost start = ticket_views(tickets@);
        let repo = self.repos[repo_index].as_str();
        let ghost views = issue_views(page@);
        let mut done: usize = 0;
        assert(start + page_tickets(self.provider@, repo@, views.take(0)) == start);
        while done < page.len()
            invariant
                done <= page@.len(),
                views == issue_views(page@),
                ticket_views(tickets@) == start + page_tickets(
                    self.provider@,
                    repo@,
                    views.take(done as int),
                ),
            decreases page@.len() - done,
        {
            let ghost before = ticket_views(tickets@);
            let issue = &page[done];
            assert(views.take(done as int + 1).drop_last() == views.take(done as int));
            assert(views.take(done as int + 1).last() == issue@);
            if !issue.pull_request {
                tickets.push(self.to_ticket(repo, issue));
                assert(ticket_views(tickets@) == before.push(tickets@.last()@));
            }
            done = done + 1;
        }
        assert(views.take(done as int) == views);
        let next = match link {
            Some(header) => parse_next_link(header.as_str()),
            None => None,
        };
        match next {
            Some(url) => ScanStep::Get(Scan { repo: repo_index, url, tickets }),
            None => self.scan(repo_index + 1, tickets),
        }
    }

    /// First step of reading a ticket: where its issue is.
    pub fn get(&self, key: &TicketKey) -> (r: AdapterResult<HttpRequest>)
        ensures
            match (r, issue_location(self.base_url@, key@.key)) {
                (Ok(a), Ok(url)) => a@ == rest::request_of(
                    HttpMethod::Get,
                    url,
                    self.token@,
                    None,
                ),
                (Err(a), Err(b)) => a@ == b,
                _ => false,
            },
    {
        match self.issue_url(key) {
            Ok(url) => Ok(self.page_request(url.as_str())),
            Err(e) => Err(e),
        }
    }

    /// Last step of reading a ticket.
    pub fn get_done(&self, key: &TicketKey, issue: &Issue) -> (r: Ticket)
        ensures
            r@ == ticket_of(self.provider@, text::pieces(key@.key, '#')[0], issue@),
    {
        let parts = split(key.key.as_str(), '#');
        proof {
            lemma_pieces_start(key.key@, '#');
            assert(text::texts(parts@)[0] == parts@[0]@);
        }
        self.to_ticket(parts[0].as_str(), issue)
    }

    /// The request that applies a transition.
    pub fn apply_transition(&self, key: &TicketKey, transition: &TrackerTransition) -> (r:
        AdapterResult<HttpRequest>)
        ensures
            match (r, transition_request(*self, key@, transition.id@)) {
                (Ok(a), Ok(b)) => a@ == b,
                (Err(a), Err(b)) => a@ == b,
                _ => false,
            },
    {
        let state = if text_eq(transition.id.as_str(), "close") {
            "closed"
        } else if text_eq(transition.id.as_str(), "reopen") {
            "open"
        } else {
            return Err(
                AdapterError::Permanent(
                    "unknown GitHub transition id ".to_owned().concat(
                        debug_quoted(transition.id.as_str()).as_str(),
                    ).concat(" (expected \"close\" or \"reopen\")"),
                ),
            );
        };
        match self.issue_url(key) {
            Err(e) => Err(e),
            Ok(url) => {
                let fields = Fields::new().with("state", Json::text(state));
                assert(fields@ == seq![("state"@, JsonView::Str(state@))]);
                Ok(request(HttpMethod::Patch, url, self.token.expose(), Some(fields.done())))
            },
        }
    }
}

/// Last step of reading the transitions that a ticket allows.
pub fn available_transitions(ticket: &Ticket) -> (r: Vec<TrackerTransition>)
    ensures
        transition_views(r@) == transitions_of(ticket@.status),
{
    let status = ticket.status.as_str();
    let out: Vec<TrackerTransition> = if text_eq(status, "open") {
        vec![TrackerTransition { id: "close".to_owned(), name: "Close".to_owned() }]
    } else if text_eq(status, "closed") {
        vec![TrackerTransition { id: "reopen".to_owned(), name: "Reopen".to_owned() }]
    } else {
        Vec::new()
    };
    assert(transition_views(out@) == transitions_of(ticket@.status));
    out
}

/// A transition leads to a state that allows the opposite one, and only what a
/// state allows is known.
pub proof fn lemma_transitions_undo_each_other(status: Seq<char>, i: int)
    requires
        0 <= i < transitions_of(status).len(),
    ensures
        state_after(transitions_of(status)[i].0) matches Some(next) && transitions_of(next).len()
            == 1 && state_after(transitions_of(next)[0].0) == Some(status),
{
    reveal_strlit("open");
    reveal_strlit("closed");
    reveal_strlit("close");
    reveal_strlit("reopen");
    assert("open"@.len() == 4 && "closed"@.len() == 6 && "close"@.len() == 5);
    assert("reopen"@.len() == 6 && "reopen"@[0] == 'r' && "closed"@[0] == 'c');
}

proof fn lemma_pieces_start(s: Seq<char>, c: char)
    ensures
        text::pieces(s, c).len() > 0,
    decreases s.len(),
{
    reveal_with_fuel(text::pieces, 2);
}

/// The error of an exchange in which no reply came back.
pub fn lost(method: HttpMethod, url: &str, cause: &str) -> (r: AdapterError)
    ensures
        r@ == AdapterErrorView::Transient(
            rest::method_text(method) + " "@ + url@ + ": "@ + cause@,
        ),
{
    AdapterError::Transient(
        method.as_str().to_owned().concat(" ").concat(url).concat(": ").concat(cause),
    )
}

/// The error of a page that is not what was asked for.
pub fn invalid_page(url: &str, cause: &str) -> (r: AdapterError)
    ensures
        r@ == AdapterErrorView::Permanent("GET "@ + url@ + ": invalid JSON: "@ + cause@),
{
    AdapterError::Permanent("GET ".to_owned().concat(url).concat(": invalid JSON: ").concat(cause))
}

} // verus!
