//! What the provider asks GitHub for, and what it makes of issues.

use crate::adapters::{AdapterErrorView, TicketKeyView};
use crate::json::JsonView;
use crate::laws::json::{holds, lemma_holds};
use crate::laws::text as text_laws;
use crate::provider_github as provider;
use crate::provider_github::{GithubProvider, IssueView, ScanStepView};
use crate::rest;
use crate::rest::{HttpMethod, HttpReplyView};
use crate::text;
use vstd::prelude::*;
use vstd::string::*;

verus! {

// ---------------------------------------------------------------------------
// Tickets

/// A ticket is the issue it comes from: its key names repository and number,
/// and title, body, state, assignee and address are the issue's.
pub proof fn lemma_ticket_mirrors_the_issue(
    name: Seq<char>,
    repo: Seq<char>,
    issue: IssueView,
)
    ensures
        ({
            let ticket = provider::ticket_of(name, repo, issue);
            &&& ticket.key.provider == name
            &&& ticket.key.key == repo + "#"@ + text::int_text(issue.number)
            &&& ticket.title == issue.title
            &&& issue.body matches Some(body) ==> ticket.body == body
            &&& issue.body is None ==> ticket.body == Seq::<char>::empty()
            &&& ticket.status == issue.state
            &&& ticket.assignee == issue.assignee
            &&& ticket.url == issue.html_url
        }),
{
}

/// A ticket that was looked up by its key has that key.
pub proof fn lemma_read_ticket_has_its_key(
    p: GithubProvider,
    repo: Seq<char>,
    issue: IssueView,
)
    requires
        !repo.contains('#'),
    ensures
        ({
            let key = repo + "#"@ + text::int_text(issue.number);
            provider::ticket_of(p.provider@, text::pieces(key, '#')[0], issue).key == (
            TicketKeyView { provider: p.provider@, key })
        }),
{
    reveal_strlit("#");
    let key = repo + "#"@ + text::int_text(issue.number);
    text::lemma_first_at(key, '#', repo.len() as int);
    assert(key.take(repo.len() as int) == repo);
}

/// The tickets of two pages, one after the other, are those of the pages in a
/// row; an issue gives its ticket, a pull request none.
pub proof fn lemma_page_by_page(
    name: Seq<char>,
    repo: Seq<char>,
    a: Seq<IssueView>,
    b: Seq<IssueView>,
    issue: IssueView,
)
    ensures
        provider::page_tickets(name, repo, a + b) == provider::page_tickets(name, repo, a)
            + provider::page_tickets(name, repo, b),
        issue.pull_request ==> provider::page_tickets(name, repo, seq![issue]).len() == 0,
        !issue.pull_request ==> provider::page_tickets(name, repo, seq![issue]) == seq![
            provider::ticket_of(name, repo, issue),
        ],
    decreases b.len(),
{
    let one = seq![issue];
    assert(one.drop_last() == Seq::<IssueView>::empty());
    assert(provider::page_tickets(name, repo, one.drop_last()).len() == 0);
    if b.len() == 0 {
        assert(a + b == a);
    } else {
        lemma_page_by_page(name, repo, a, b.drop_last(), issue);
        assert((a + b).drop_last() == a + b.drop_last());
        assert((a + b).last() == b.last());
    }
    assert(provider::page_tickets(name, repo, a + b) == provider::page_tickets(name, repo, a)
        + provider::page_tickets(name, repo, b));
}

// ---------------------------------------------------------------------------
// Dependencies

/// The dependencies of two runs of lines are those of the lines in a row; each
/// line declares at most one, of the provider itself.
pub proof fn lemma_line_by_line(
    a: Seq<Seq<char>>,
    b: Seq<Seq<char>>,
    line: Seq<char>,
    name: Seq<char>,
    repo: Seq<char>,
)
    ensures
        provider::dependencies(a + b, name, repo) == provider::dependencies(a, name, repo)
            + provider::dependencies(b, name, repo),
        provider::dependency(line, repo) matches Some(key) ==> provider::dependencies(
            seq![line],
            name,
            repo,
        ) == seq![TicketKeyView { provider: name, key }],
        provider::dependency(line, repo) is None ==> provider::dependencies(
            seq![line],
            name,
            repo,
        ).len() == 0,
    decreases b.len(),
{
    let one = seq![line];
    assert(one.drop_last() == Seq::<Seq<char>>::empty());
    assert(provider::dependencies(one.drop_last(), name, repo).len() == 0);
    if b.len() == 0 {
        assert(a + b == a);
    } else {
        lemma_line_by_line(a, b.drop_last(), line, name, repo);
        assert((a + b).drop_last() == a + b.drop_last());
        assert((a + b).last() == b.last());
    }
    assert(provider::dependencies(a + b, name, repo) == provider::dependencies(a, name, repo)
        + provider::dependencies(b, name, repo));
}

proof fn lemma_not_white(c: char)
    requires
        'a' <= c <= 'z' || 'A' <= c <= 'Z' || '0' <= c <= '9' || c == '#',
    ensures
        !text::is_white_space(c),
{
}

proof fn lemma_solid(s: Seq<char>)
    requires
        s.len() > 0,
        !text::is_white_space(s[0]),
        !text::is_white_space(s.last()),
    ensures
        text::trimmed(s) == s,
{
    assert(text::trimmed_end(s, text::white()) == s);
}

/// A line that is `Blocked by #N`, in whatever case, with white space around it
/// or not, declares issue N of the same repository.
pub proof fn lemma_blocked_by_number(line: Seq<char>, words: Seq<char>, n: int, repo: Seq<char>)
    requires
        0 <= n <= u64::MAX,
        text::same_ignoring_case(words, "blocked by "@),
        text::trimmed(line) == words + "#"@ + text::int_text(n),
    ensures
        provider::dependency(line, repo) == Some(repo + "#"@ + text::int_text(n)),
{
    reveal_strlit("#");
    reveal_strlit("blocked by ");
    let num = text::int_text(n);
    let s = text::trimmed(line);
    text::lemma_int_text_denotes(n);
    lemma_digits(n);
    assert(s.take(11) == words);
    let rest = "#"@ + num;
    assert(s.skip(11) == rest);
    lemma_not_white('#');
    lemma_not_white(num.last());
    assert(rest.last() == num.last());
    lemma_solid(rest);
    text_laws::lemma_behind_a_prefix("#"@, num, Seq::empty());
    assert(provider::issue_number(num) == Some(n));
}

/// A line that is `Blocked by owner/repo#N`, in whatever case, declares issue N
/// of that repository.
pub proof fn lemma_blocked_by_reference(
    line: Seq<char>,
    words: Seq<char>,
    owner: Seq<char>,
    name: Seq<char>,
    n: int,
    repo: Seq<char>,
)
    requires
        owner.len() > 0 && name.len() > 0,
        !owner.contains('#') && !name.contains('#'),
        !owner.contains('/') && !name.contains('/'),
        !text::has_white(owner) && !text::has_white(name),
        0 <= n <= u64::MAX,
        text::same_ignoring_case(words, "blocked by "@),
        text::trimmed(line) == words + (owner + "/"@ + name + "#"@ + text::int_text(n)),
    ensures
        provider::dependency(line, repo) == Some(
            owner + "/"@ + name + "#"@ + text::int_text(n),
        ),
{
    reveal_strlit("#");
    reveal_strlit("blocked by ");
    let num = text::int_text(n);
    let rest = owner + "/"@ + name + "#"@ + num;
    let s = text::trimmed(line);
    lemma_digits(n);
    assert(s.take(11) == words);
    assert(s.skip(11) == rest);
    assert(rest[0] == owner[0]);
    assert(!text::is_white_space(owner[0]));
    lemma_not_white(num.last());
    assert(rest.last() == num.last());
    lemma_solid(rest);
    assert(owner.contains(owner[0]));
    assert(rest[0] != '#');
    assert(text::after_prefix(rest, "#"@) is None) by {
        if text::opens_with(rest, "#"@) {
            assert(rest.take(1)[0] == rest[0]);
        }
    }
    provider::lemma_reference_round_trip(owner, name, n);
    assert(provider::key_text(owner + "/"@ + name, n) == rest);
}

proof fn lemma_digits(n: int)
    requires
        0 <= n,
    ensures
        text::int_text(n).len() > 0,
        text::unsigned_denoted(text::int_text(n)) == Some(n),
        '0' <= text::int_text(n).last() <= '9',
        '0' <= text::int_text(n)[0] <= '9',
{
    text::lemma_int_text_denotes(n);
}

/// A line that does not open with the words declares nothing.
pub proof fn lemma_other_lines_declare_nothing(line: Seq<char>, repo: Seq<char>)
    requires
        text::trimmed(line).len() < 11 || !text::same_ignoring_case(
            text::trimmed(line).take(11),
            "blocked by "@,
        ),
    ensures
        provider::dependency(line, repo) is None,
{
    reveal_strlit("blocked by ");
}

/// Whatever a line declares is an issue's key: a repository and a number.
pub proof fn lemma_declared_keys(line: Seq<char>, repo: Seq<char>, key: Seq<char>)
    requires
        provider::dependency(line, repo) == Some(key),
    ensures
        exists|of: Seq<char>, n: int|
            0 <= n <= u64::MAX && key == of + "#"@ + #[trigger] text::int_text(n)
                && #[trigger] text::has_text(key, of),
{
    let s = text::trimmed(line);
    let rest = text::trimmed(s.skip("blocked by "@.len() as int));
    let (of, n) = match text::after_prefix(rest, "#"@) {
        Some(num) => (repo, provider::issue_number(num)->0),
        None => provider::reference(rest)->0,
    };
    assert(key == provider::key_text(of, n));
    assert(key == Seq::<char>::empty() + of + ("#"@ + text::int_text(n)));
    text::lemma_has_middle(Seq::empty(), of, "#"@ + text::int_text(n));
    assert(0 <= n);
}

// ---------------------------------------------------------------------------
// Requests

/// An issue is looked up under the provider's address, in its repository, by
/// its number; a key that names no issue is refused for good.
pub proof fn lemma_issue_address(
    base_url: Seq<char>,
    owner: Seq<char>,
    name: Seq<char>,
    n: int,
    key: Seq<char>,
)
    requires
        owner.len() > 0 && name.len() > 0,
        !owner.contains('#') && !name.contains('#'),
        !owner.contains('/') && !name.contains('/'),
        !text::has_white(owner) && !text::has_white(name),
        0 <= n <= u64::MAX,
    ensures
        provider::issue_location(
            base_url,
            owner + "/"@ + name + "#"@ + text::int_text(n),
        ) matches Ok(url) && url == base_url + "/repos/"@ + (owner + "/"@ + name) + "/issues/"@
            + text::int_text(n),
        provider::reference(key) is None ==> (provider::issue_location(base_url, key) matches Err(
            AdapterErrorView::Permanent(why),
        ) && text::has_text(why, text::debug_text(key))),
{
    provider::lemma_reference_round_trip(owner, name, n);
    assert(provider::key_text(owner + "/"@ + name, n) == owner + "/"@ + name + "#"@
        + text::int_text(n));
    text::lemma_has_middle(
        "invalid GitHub ticket key "@,
        text::debug_text(key),
        ": expected owner/repo#N"@,
    );
}

/// A key is an issue's only with an owner, a repository, and a number.
pub proof fn lemma_references_are_whole(s: Seq<char>)
    requires
        provider::reference(s) is Some,
    ensures
        ({
            let (repo, n) = provider::reference(s)->0;
            &&& 0 <= n <= u64::MAX
            &&& repo.contains('/')
            &&& !repo.contains('#')
            &&& !text::has_white(repo)
            &&& text::opens_with(s, repo + "#"@)
        }),
{
    reveal_strlit("#");
    text_laws::lemma_cut_parts(s, '#');
    let (repo, num) = text::cut_at(s, '#')->0;
    text_laws::lemma_cut_parts(repo, '/');
    let (owner, name) = text::cut_at(repo, '/')->0;
    assert(repo[owner.len() as int] == '/');
    assert(repo + "#"@ == repo.push('#'));
    assert(s.take((repo + "#"@).len() as int) == repo + "#"@);
}

/// The list of a repository is asked for what is open and assigned to the user,
/// in the largest pages there are.
pub proof fn lemma_list_address(base_url: Seq<char>, repo: Seq<char>, user: Seq<char>)
    ensures
        ({
            let url = provider::list_location(base_url, repo, user);
            &&& text::opens_with(url, base_url + "/repos/"@ + repo + "/issues?"@)
            &&& text::has_text(url, "assignee="@ + user + "&"@)
            &&& text::has_text(url, "&state=open&"@)
            &&& text::closes_with(url, "&per_page=100"@)
        }),
{
    reveal_strlit("/issues?assignee=");
    reveal_strlit("/issues?");
    reveal_strlit("assignee=");
    reveal_strlit("&state=open&per_page=100");
    reveal_strlit("&state=open&");
    reveal_strlit("&per_page=100");
    reveal_strlit("per_page=100");
    reveal_strlit("&state=open");
    reveal_strlit("state=open&per_page=100");
    reveal_strlit("&");
    let url = provider::list_location(base_url, repo, user);
    let root = base_url + "/repos/"@ + repo;
    assert("/issues?assignee="@ == "/issues?"@ + "assignee="@);
    assert("&state=open&per_page=100"@ == "&"@ + "state=open&per_page=100"@);
    assert("&state=open&per_page=100"@ == "&state=open&"@ + "per_page=100"@);
    assert("&state=open&per_page=100"@ == "&state=open"@ + "&per_page=100"@);
    let head = root + "/issues?"@;
    assert(url == head + ("assignee="@ + user + "&state=open&per_page=100"@));
    assert(url.take(head.len() as int) == head);
    assert(url == head + ("assignee="@ + user + "&"@) + "state=open&per_page=100"@);
    text::lemma_has_middle(head, "assignee="@ + user + "&"@, "state=open&per_page=100"@);
    let front = root + "/issues?assignee="@ + user;
    assert(url == front + "&state=open&"@ + "per_page=100"@);
    text::lemma_has_middle(front, "&state=open&"@, "per_page=100"@);
    assert(url == (front + "&state=open"@) + "&per_page=100"@);
    assert(url.skip((front + "&state=open"@).len() as int) == "&per_page=100"@);
}

/// A scan begins with the first repository, and is over at once where there is
/// none.
pub proof fn lemma_scan_begins(p: GithubProvider)
    ensures
        p.repos@.len() > 0 ==> (provider::scan_from(p, 0, Seq::empty()) matches ScanStepView::Get {
            repo,
            url,
            tickets,
        } && repo == 0 && tickets.len() == 0 && url == provider::list_location(
            p.base_url@,
            p.repos@[0]@,
            p.user@,
        )),
        p.repos@.len() == 0 ==> (provider::scan_from(p, 0, Seq::empty()) matches ScanStepView::Done(
            found,
        ) && found.len() == 0),
{
}

/// A page adds its tickets behind those that were found, whatever comes next:
/// the page that the answer names, then the next repository, then the end.
pub proof fn lemma_scan_goes_on(
    p: GithubProvider,
    i: int,
    tickets: Seq<crate::adapters::TicketView>,
    page: Seq<IssueView>,
    link: Option<Seq<char>>,
)
    requires
        0 <= i < p.repos@.len(),
    ensures
        ({
            let found = tickets + provider::page_tickets(p.provider@, p.repos@[i]@, page);
            let next = provider::following(link);
            let step = provider::scanned(p, i, tickets, page, link);
            &&& next matches Some(url) ==> step == (ScanStepView::Get {
                repo: i,
                url,
                tickets: found,
            })
            &&& next is None && i + 1 < p.repos@.len() ==> step == (ScanStepView::Get {
                repo: i + 1,
                url: provider::list_location(p.base_url@, p.repos@[i + 1]@, p.user@),
                tickets: found,
            })
            &&& next is None && i + 1 == p.repos@.len() ==> step == ScanStepView::Done(found)
            &&& provider::following(None) is None
        }),
{
}

/// Opening and closing are each other's way back; an open issue can be closed, a
/// closed one reopened, and any other cannot be moved.
pub proof fn lemma_transitions(status: Seq<char>)
    ensures
        provider::transitions_of("open"@) == seq![("close"@, "Close"@)],
        provider::transitions_of("closed"@) == seq![("reopen"@, "Reopen"@)],
        status != "open"@ && status != "closed"@ ==> provider::transitions_of(status).len() == 0,
        provider::state_after("close"@) == Some("closed"@),
        provider::state_after("reopen"@) == Some("open"@),
        status != "close"@ && status != "reopen"@ ==> provider::state_after(status) is None,
{
    reveal_strlit("open");
    reveal_strlit("closed");
    reveal_strlit("close");
    reveal_strlit("reopen");
    assert("open"@[0] == 'o' && "closed"@[0] == 'c');
    assert("close"@[0] == 'c' && "reopen"@[0] == 'r');
}

/// A transition is a patch of the issue that sets its state.
pub proof fn lemma_transition_sets_the_state(
    p: GithubProvider,
    key: TicketKeyView,
    transition: Seq<char>,
)
    ensures
        match provider::transition_request(p, key, transition) {
            Ok(sent) => sent.method is Patch && provider::issue_location(p.base_url@, key.key) == Ok::<
                Seq<char>,
                AdapterErrorView,
            >(sent.url) && (sent.body matches Some(body) && (transition == "close"@ ==> holds(
                body,
                "state"@,
                JsonView::Str("closed"@),
            )) && (transition == "reopen"@ ==> holds(body, "state"@, JsonView::Str("open"@)))),
            Err(e) => e is Permanent,
        },
        transition != "close"@ && transition != "reopen"@ ==> provider::transition_request(
            p,
            key,
            transition,
        ) is Err,
{
    lemma_transitions(transition);
    if let Ok(sent) = provider::transition_request(p, key, transition) {
        let fields = sent.body->0->Object_0;
        lemma_holds(fields, 0);
    }
}

// ---------------------------------------------------------------------------
// Replies

/// A short body is quoted as it is; of a long one the first two hundred
/// characters are.
pub proof fn lemma_snippets(body: Seq<char>)
    ensures
        body.len() <= 200 ==> provider::snippet_of(body) == body,
        body.len() > 200 ==> provider::snippet_of(body).len() == 201 && provider::snippet_of(
            body,
        ).take(200) == body.take(200) && provider::snippet_of(body).last() == '…',
{
    reveal_strlit("…");
    if body.len() > 200 {
        assert(provider::snippet_of(body).take(200) == body.take(200));
    }
}

/// The message of a failure names the method, the address and the status, and
/// quotes the body.
pub proof fn lemma_refusal_says_what_came_back(
    method: HttpMethod,
    url: Seq<char>,
    reply: HttpReplyView,
)
    ensures
        ({
            let told = provider::refusal(method, url, reply);
            &&& text::opens_with(told, rest::method_text(method))
            &&& text::has_text(told, url)
            &&& text::has_text(told, "HTTP "@ + rest::status_display(reply.status))
            &&& text::closes_with(told, provider::snippet_of(reply.body))
        }),
{
    reveal_strlit(": HTTP ");
    reveal_strlit(": ");
    reveal_strlit("HTTP ");
    let m = rest::method_text(method);
    let s = rest::status_display(reply.status);
    let b = provider::snippet_of(reply.body);
    let told = provider::refusal(method, url, reply);
    assert(told.take(m.len() as int) == m);
    assert(told == (m + " "@) + url + (": HTTP "@ + s + ": "@ + b));
    text::lemma_has_middle(m + " "@, url, ": HTTP "@ + s + ": "@ + b);
    assert(": HTTP "@ == ": "@ + "HTTP "@);
    assert(told == (m + " "@ + url + ": "@) + ("HTTP "@ + s) + (": "@ + b));
    text::lemma_has_middle(m + " "@ + url + ": "@, "HTTP "@ + s, ": "@ + b);
    let front = m + " "@ + url + ": HTTP "@ + s + ": "@;
    assert(told == front + b);
    assert(told.skip(front.len() as int) == b);
}

/// A quota is exhausted where the reply says zero, with white space or without,
/// and nowhere else.
pub proof fn lemma_quota(remaining: Option<Seq<char>>)
    ensures
        remaining is None ==> !provider::quota_exhausted(remaining),
        provider::quota_exhausted(Some("0"@)),
        remaining matches Some(v) ==> (provider::quota_exhausted(remaining) <==> text::trimmed(v)
            == "0"@),
{
    reveal_strlit("0");
    lemma_not_white('0');
    lemma_solid("0"@);
}

/// An entry of a `Link` header leads on by its relation alone, to the address
/// between its angle brackets.
pub proof fn lemma_next_entry_is_read(url: Seq<char>, rest: Seq<Seq<char>>)
    requires
        url.len() > 0,
        !url.contains(';'),
    ensures
        provider::next_of(seq!["<"@ + url + ">; rel=\"next\""@] + rest) == Some(url),
        provider::next_of(seq!["<"@ + url + ">; rel=\"prev\""@] + rest) == provider::next_of(rest),
        provider::next_of(Seq::empty()) is None,
{
    reveal_strlit("<");
    reveal_strlit(">; rel=\"next\"");
    reveal_strlit("rel=\"next\"");
    reveal_strlit(">; rel=\"prev\"");
    reveal_strlit("rel=\"prev\"");
    assert("<"@ + url + ">; rel=\"next\""@ == seq!['<'] + url + seq!['>', ';', ' ']
        + "rel=\"next\""@);
    lemma_entry_pieces(url, "rel=\"next\""@, "<"@ + url + ">; rel=\"next\""@);
    assert("<"@ + url + ">; rel=\"prev\""@ == seq!['<'] + url + seq!['>', ';', ' ']
        + "rel=\"prev\""@);
    lemma_entry_pieces(url, "rel=\"prev\""@, "<"@ + url + ">; rel=\"prev\""@);
    let next = "<"@ + url + ">; rel=\"next\""@;
    let prev = "<"@ + url + ">; rel=\"prev\""@;
    assert(text::same_ignoring_case(
        text::trimmed(text::pieces(next, ';')[1]),
        "rel=\"next\""@,
    ));
    assert(provider::leads_on(next));
    let t = seq!['<'] + url + seq!['>'];
    assert(t.subrange(1, t.len() - 1) == url);
    assert(provider::target(next) == Some(url));
    assert((seq![next] + rest)[0] == next);
    assert(!provider::leads_on(prev)) by {
        if provider::leads_on(prev) {
            let segments = text::pieces(prev, ';');
            let i = choose|i: int|
                1 <= i < segments.len() && text::same_ignoring_case(
                    text::trimmed(#[trigger] segments[i]),
                    "rel=\"next\""@,
                );
            assert(i == 1);
            assert("rel=\"prev\""@[5] == 'p' && "rel=\"next\""@[5] == 'n');
            assert(text::ascii_lower("rel=\"prev\""@[5]) == text::ascii_lower(
                "rel=\"next\""@[5],
            ));
        }
    }
    assert((seq![prev] + rest)[0] == prev);
    assert((seq![prev] + rest).skip(1) == rest);
}

proof fn lemma_entry_pieces(url: Seq<char>, rel: Seq<char>, entry: Seq<char>)
    requires
        url.len() > 0,
        !url.contains(';'),
        entry == seq!['<'] + url + seq!['>', ';', ' '] + rel,
        rel.len() > 0,
        !rel.contains(';'),
        rel[0] == 'r',
        rel.last() == '"',
    ensures
        text::pieces(entry, ';').len() == 2,
        text::trimmed(text::pieces(entry, ';')[0]) == seq!['<'] + url + seq!['>'],
        text::trimmed(text::pieces(entry, ';')[1]) == rel,
{
    let t = seq!['<'] + url + seq!['>'];
    let n = t.len() as int;
    assert forall|i: int| 0 <= i < n implies entry[i] != ';' by {
        assert(entry[i] == t[i]);
        if 1 <= i < n - 1 {
            assert(url.contains(url[i - 1]));
        }
    }
    assert(entry[n] == ';');
    text::lemma_first_at(entry, ';', n);
    assert(entry.take(n) == t);
    let tail = seq![' '] + rel;
    assert(entry.skip(n + 1) == tail);
    assert forall|i: int| 0 <= i < tail.len() implies tail[i] != ';' by {
        if i > 0 {
            assert(rel.contains(rel[i - 1]));
        }
    }
    text::lemma_first_at_is(tail, ';');
    assert(text::pieces(tail, ';') == seq![tail]);
    assert(text::pieces(entry, ';') == seq![t] + seq![tail]);
    let w = text::white();
    assert(!w('<') && !w('>') && w(' ') && !w('r') && !w('"'));
    lemma_solid(t);
    assert(tail.last() == rel.last());
    assert(text::trimmed_end(tail, w) == tail);
    assert(tail.skip(1) == rel);
    assert(text::trimmed_start(rel, w) == rel);
    assert(text::trimmed_start(tail, w) == rel);
}

/// An entry without parameters leads nowhere.
pub proof fn lemma_bare_entry_leads_nowhere(entry: Seq<char>)
    requires
        !entry.contains(';'),
    ensures
        !provider::leads_on(entry),
{
    text::lemma_first_at_is(entry, ';');
    assert(text::pieces(entry, ';') == seq![entry]);
}

} // verus!
