//! What a configuration means, and when it is valid.

use crate::config;
use crate::config::{Agent, Config, ConfigErrorView, Provider, Repo, SegmentView};
use crate::laws::text as text_laws;
use crate::paths;
use crate::table;
use crate::text;
use vstd::prelude::*;
use vstd::string::*;

verus! {

// ---------------------------------------------------------------------------
// Templates

/// A piece of a template as it is written.
pub open spec fn written(seg: SegmentView) -> Seq<char> {
    match seg {
        SegmentView::Lit(lit) => lit,
        SegmentView::Var(var) => "{"@ + var + "}"@,
    }
}

/// Pieces as they are written, in a row.
pub open spec fn written_out(segs: Seq<SegmentView>) -> Seq<char>
    decreases segs.len(),
{
    if segs.len() == 0 {
        Seq::empty()
    } else {
        written(segs[0]) + written_out(segs.skip(1))
    }
}

proof fn lemma_written_out(a: Seq<SegmentView>, b: Seq<SegmentView>)
    ensures
        written_out(a + b) == written_out(a) + written_out(b),
    decreases a.len(),
{
    if a.len() == 0 {
        assert(a + b == b);
        assert(written_out(a) + written_out(b) == written_out(b));
    } else {
        assert((a + b).skip(1) == a.skip(1) + b);
        assert((a + b)[0] == a[0]);
        lemma_written_out(a.skip(1), b);
        assert(written_out(a + b) == written(a[0]) + (written_out(a.skip(1)) + written_out(b)));
        assert(written_out(a + b) == written_out(a) + written_out(b));
    }
}

proof fn lemma_written_pair(a: SegmentView, b: SegmentView)
    ensures
        written_out(seq![a]) == written(a),
        written_out(seq![a, b]) == written(a) + written(b),
{
    let one = seq![a];
    assert(one.skip(1) == Seq::<SegmentView>::empty());
    assert(written_out(one.skip(1)) == Seq::<char>::empty());
    assert(written_out(one) == written(a));
    let other = seq![b];
    assert(other.skip(1) == Seq::<SegmentView>::empty());
    assert(written_out(other) == written(b));
    let two = seq![a, b];
    assert(two.skip(1) == other);
}

/// The pieces of a template, written out, are the template: nothing is lost and
/// nothing is read into it. A placeholder ends at the first closing brace, and
/// what is outside of placeholders has no opening one.
pub proof fn lemma_pieces_are_the_template(tpl: Seq<char>)
    requires
        config::segments_of(tpl) is Some,
    ensures
        written_out(config::segments_of(tpl)->0) == tpl,
        forall|i: int|
            0 <= i < (config::segments_of(tpl)->0).len() ==> match #[trigger] (config::segments_of(
                tpl,
            )->0)[i] {
                SegmentView::Lit(lit) => lit.len() > 0 && !lit.contains('{'),
                SegmentView::Var(var) => !var.contains('}'),
            },
    decreases tpl.len(),
{
    reveal_strlit("{");
    reveal_strlit("}");
    let segs = config::segments_of(tpl)->0;
    let open = text::first_at(tpl, '{') as int;
    text::lemma_first_at_is(tpl, '{');
    if open >= tpl.len() {
        if tpl.len() > 0 {
            lemma_written_pair(SegmentView::Lit(tpl), SegmentView::Lit(tpl));
        }
    } else {
        let after = tpl.skip(open + 1);
        let close = text::first_at(after, '}') as int;
        text::lemma_first_at_is(after, '}');
        let var = SegmentView::Var(after.take(close));
        let lit = SegmentView::Lit(tpl.take(open));
        let rest = after.skip(close + 1);
        let tail = config::segments_of(rest)->0;
        lemma_pieces_are_the_template(rest);
        lemma_written_pair(var, var);
        lemma_written_pair(lit, var);
        let head = if open > 0 {
            seq![lit, var]
        } else {
            seq![var]
        };
        assert(segs == head + tail);
        lemma_written_out(head, tail);
        assert(tpl == tpl.take(open) + ("{"@ + after.take(close) + "}"@) + rest);
        assert forall|i: int| 0 <= i < segs.len() implies match #[trigger] segs[i] {
            SegmentView::Lit(lit) => lit.len() > 0 && !lit.contains('{'),
            SegmentView::Var(var) => !var.contains('}'),
        } by {
            if i >= head.len() {
                assert(segs[i] == tail[i - head.len()]);
            }
        }
    }
}

/// Two runs of pieces are filled one after the other; the first that cannot be
/// filled is the one that is named.
pub proof fn lemma_filled_in_a_row(
    a: Seq<SegmentView>,
    b: Seq<SegmentView>,
    vars: Seq<(Seq<char>, String)>,
)
    ensures
        match (config::filled(a, vars), config::filled(b, vars)) {
            (Ok(x), Ok(y)) => config::filled(a + b, vars) == Ok::<Seq<char>, Seq<char>>(x + y),
            (Err(var), _) => config::filled(a + b, vars) == Err::<Seq<char>, Seq<char>>(var),
            (Ok(_), Err(var)) => config::filled(a + b, vars) == Err::<Seq<char>, Seq<char>>(var),
        },
    decreases b.len(),
{
    if b.len() == 0 {
        assert(a + b == a);
        if let Ok(x) = config::filled(a, vars) {
            assert(x + Seq::<char>::empty() == x);
        }
    } else {
        let init = b.drop_last();
        lemma_filled_in_a_row(a, init, vars);
        assert((a + b).drop_last() == a + init);
        assert((a + b).last() == b.last());
        if config::filled(a, vars) is Ok && config::filled(init, vars) is Ok {
            let x = config::filled(a, vars)->Ok_0;
            let y = config::filled(init, vars)->Ok_0;
            match b.last() {
                SegmentView::Lit(lit) => {
                    assert(x + y + lit == x + (y + lit));
                },
                SegmentView::Var(var) => {
                    if let Some(value) = table::lookup(vars, var) {
                        assert(x + y + value@ == x + (y + value@));
                    }
                },
            }
        }
    }
}

/// Text stands for itself, a placeholder for its value, and a placeholder
/// without a value for an error that names it.
pub proof fn lemma_filled_piece(seg: SegmentView, vars: Seq<(Seq<char>, String)>)
    ensures
        match seg {
            SegmentView::Lit(lit) => config::filled(seq![seg], vars) == Ok::<Seq<char>, Seq<char>>(
                lit,
            ),
            SegmentView::Var(var) => match table::lookup(vars, var) {
                Some(value) => config::filled(seq![seg], vars) == Ok::<Seq<char>, Seq<char>>(
                    value@,
                ),
                None => config::filled(seq![seg], vars) == Err::<Seq<char>, Seq<char>>(var),
            },
        },
{
    let one = seq![seg];
    assert(one.drop_last() == Seq::<SegmentView>::empty());
    assert(config::filled(one.drop_last(), vars) == Ok::<Seq<char>, Seq<char>>(Seq::empty()));
}

/// A template that cannot be rendered is quoted, and so is the placeholder at
/// fault.
pub proof fn lemma_template_errors_quote(tpl: Seq<char>, var: Seq<char>)
    ensures
        text::has_text(config::unclosed_message(tpl), tpl),
        text::has_text(config::unknown_placeholder_message(var, tpl), var),
        text::has_text(config::unknown_placeholder_message(var, tpl), tpl),
{
    text::lemma_has_middle("unclosed '{' in template \""@, tpl, "\""@);
    let told = config::unknown_placeholder_message(var, tpl);
    let tail = "} in template \""@ + tpl + "\""@;
    assert(told == "unknown placeholder {"@ + var + tail);
    text::lemma_has_middle("unknown placeholder {"@, var, tail);
    text::lemma_has_middle("unknown placeholder {"@ + var + "} in template \""@, tpl, "\""@);
}

// ---------------------------------------------------------------------------
// Validity

/// Whether a template has only closed placeholders that a branch has values
/// for.
pub open spec fn names_branches(tpl: Seq<char>) -> bool {
    config::segments_of(tpl) matches Some(segs) && forall|i: int|
        0 <= i < segs.len() ==> match #[trigger] segs[i] {
            SegmentView::Var(var) => var == "type"@ || var == "ticket"@ || var == "slug"@,
            SegmentView::Lit(_) => true,
        }
}

/// Whether a repository's settings hang together with the rest.
pub open spec fn is_sound(c: Config, repo: Repo) -> bool {
    &&& names_branches(repo.branch_template@)
    &&& repo.provider matches Some(p) ==> table::lookup(c.providers@, p@) is Some
    &&& repo.agent matches Some(a) ==> a@ == "omp"@ || table::lookup(c.agents@, a@) is Some
}

proof fn lemma_bad_var(segs: Seq<SegmentView>)
    ensures
        config::bad_var(segs) is None <==> forall|i: int|
            0 <= i < segs.len() ==> match #[trigger] segs[i] {
                SegmentView::Var(var) => var == "type"@ || var == "ticket"@ || var == "slug"@,
                SegmentView::Lit(_) => true,
            },
    decreases segs.len(),
{
    if segs.len() > 0 {
        let rest = segs.skip(1);
        lemma_bad_var(rest);
        assert(forall|i: int| 0 < i < segs.len() ==> #[trigger] segs[i] == rest[i - 1]);
        assert(forall|i: int| 0 <= i < rest.len() ==> #[trigger] rest[i] == segs[i + 1]);
    }
}

proof fn lemma_sound(c: Config, name: Seq<char>, repo: Repo)
    ensures
        config::repo_error(c, name, repo) is None <==> is_sound(c, repo),
{
    if let Some(segs) = config::segments_of(repo.branch_template@) {
        lemma_bad_var(segs);
    }
}

proof fn lemma_no_provider_error(s: Seq<(Seq<char>, Provider)>)
    ensures
        config::first_provider_error(s) is None <==> forall|i: int|
            0 <= i < s.len() ==> (#[trigger] s[i]).1.kind@ == "jira"@ || s[i].1.kind@ == "github"@
                || s[i].1.kind@ == "local"@,
    decreases s.len(),
{
    if s.len() > 0 {
        let rest = s.skip(1);
        lemma_no_provider_error(rest);
        assert(forall|i: int| 0 < i < s.len() ==> #[trigger] s[i] == rest[i - 1]);
        assert(forall|i: int| 0 <= i < rest.len() ==> #[trigger] rest[i] == s[i + 1]);
    }
}

proof fn lemma_no_agent_error(s: Seq<(Seq<char>, Agent)>)
    ensures
        config::first_agent_error(s) is None <==> forall|i: int|
            0 <= i < s.len() ==> (#[trigger] s[i]).1.start_cmd@.len() > 0,
    decreases s.len(),
{
    if s.len() > 0 {
        let rest = s.skip(1);
        lemma_no_agent_error(rest);
        assert(forall|i: int| 0 < i < s.len() ==> #[trigger] s[i] == rest[i - 1]);
        assert(forall|i: int| 0 <= i < rest.len() ==> #[trigger] rest[i] == s[i + 1]);
    }
}

proof fn lemma_no_repo_error(c: Config, s: Seq<(Seq<char>, Repo)>)
    ensures
        config::first_repo_error(c, s) is None <==> forall|i: int|
            0 <= i < s.len() ==> is_sound(c, (#[trigger] s[i]).1),
    decreases s.len(),
{
    if s.len() > 0 {
        let rest = s.skip(1);
        lemma_sound(c, s[0].0, s[0].1);
        lemma_no_repo_error(c, rest);
        assert(forall|i: int| 0 < i < s.len() ==> #[trigger] s[i] == rest[i - 1]);
        assert(forall|i: int| 0 <= i < rest.len() ==> #[trigger] rest[i] == s[i + 1]);
    }
}

/// A configuration is valid exactly where every provider is of a known kind,
/// every agent has a command to start with, and every repository can name its
/// branches and has the provider and the agent that it asks for.
pub proof fn lemma_validity(c: Config)
    ensures
        config::config_error(c) is None <==> {
            &&& forall|i: int|
                0 <= i < c.providers@.len() ==> (#[trigger] c.providers@[i]).1.kind@ == "jira"@
                    || c.providers@[i].1.kind@ == "github"@ || c.providers@[i].1.kind@ == "local"@
            &&& forall|i: int|
                0 <= i < c.agents@.len() ==> (#[trigger] c.agents@[i]).1.start_cmd@.len() > 0
            &&& forall|i: int| 0 <= i < c.repos@.len() ==> is_sound(c, (#[trigger] c.repos@[i]).1)
        },
{
    lemma_no_provider_error(c.providers@);
    lemma_no_agent_error(c.agents@);
    lemma_no_repo_error(c, c.repos@);
}

/// What is wrong with an entry is said with its name, and with the value at
/// fault.
pub proof fn lemma_validation_names_the_entry(name: Seq<char>, p: Provider, a: Agent)
    ensures
        config::provider_error(name, p) matches Some(why) ==> text::has_text(
            why,
            "provider '"@ + name + "'"@,
        ) && text::has_text(why, "\""@ + p.kind@ + "\""@),
        config::agent_error(name, a) matches Some(why) ==> text::has_text(
            why,
            "agent '"@ + name + "'"@,
        ) && text::has_text(why, "start_cmd"@),
{
    reveal_strlit("provider '");
    reveal_strlit("'");
    reveal_strlit("': unknown kind \"");
    reveal_strlit(": unknown kind \"");
    reveal_strlit("': unknown kind ");
    reveal_strlit("\"");
    reveal_strlit("\" (known: jira, github, local)");
    reveal_strlit(" (known: jira, github, local)");
    assert("': unknown kind \""@ == "'"@ + ": unknown kind \""@);
    assert("': unknown kind \""@ == "': unknown kind "@ + "\""@);
    assert("\" (known: jira, github, local)"@ == "\""@ + " (known: jira, github, local)"@);
    let kind = p.kind@;
    let tail = ": unknown kind \""@ + kind + "\" (known: jira, github, local)"@;
    text::lemma_has_middle(Seq::empty(), "provider '"@ + name + "'"@, tail);
    assert(Seq::<char>::empty() + ("provider '"@ + name + "'"@) + tail == "provider '"@ + name
        + "': unknown kind \""@ + kind + "\" (known: jira, github, local)"@);
    let front = "provider '"@ + name + "': unknown kind "@;
    text::lemma_has_middle(front, "\""@ + kind + "\""@, " (known: jira, github, local)"@);
    assert(front + ("\""@ + kind + "\""@) + " (known: jira, github, local)"@ == "provider '"@
        + name + "': unknown kind \""@ + kind + "\" (known: jira, github, local)"@);
    lemma_agent_error_text(name);
}

proof fn lemma_agent_error_text(name: Seq<char>)
    ensures
        text::has_text(
            "agent '"@ + name + "': start_cmd must not be empty"@,
            "agent '"@ + name + "'"@,
        ),
        text::has_text("agent '"@ + name + "': start_cmd must not be empty"@, "start_cmd"@),
{
    reveal_strlit("'");
    reveal_strlit("': start_cmd must not be empty");
    reveal_strlit(": start_cmd must not be empty");
    reveal_strlit("': ");
    reveal_strlit("start_cmd");
    reveal_strlit(" must not be empty");
    assert("': start_cmd must not be empty"@ == "'"@ + ": start_cmd must not be empty"@);
    assert("': start_cmd must not be empty"@ == "': "@ + "start_cmd"@ + " must not be empty"@);
    let why = "agent '"@ + name + "': start_cmd must not be empty"@;
    text::lemma_has_middle(
        Seq::empty(),
        "agent '"@ + name + "'"@,
        ": start_cmd must not be empty"@,
    );
    assert(Seq::<char>::empty() + ("agent '"@ + name + "'"@) + ": start_cmd must not be empty"@
        == why);
    text::lemma_has_middle("agent '"@ + name + "': "@, "start_cmd"@, " must not be empty"@);
    assert("agent '"@ + name + "': "@ + "start_cmd"@ + " must not be empty"@ == why);
}

/// An unreadable, malformed or invalid configuration is named by its file or
/// explained.
pub proof fn lemma_config_messages(path: Seq<char>, source: Seq<char>, msg: Seq<char>)
    ensures
        text::closes_with(config::config_message(ConfigErrorView::Io { path, source }), path),
        text::has_text(config::config_message(ConfigErrorView::Parse { path, source }), path),
        text::closes_with(config::config_message(ConfigErrorView::Parse { path, source }), source),
        text::closes_with(config::config_message(ConfigErrorView::Validation { msg }), msg),
{
    let a = "failed to read config file "@;
    assert((a + path).skip(a.len() as int) == path);
    let b = "failed to parse "@ + path + ": "@;
    assert((b + source).skip(b.len() as int) == source);
    text::lemma_has_middle("failed to parse "@, path, ": "@ + source);
    assert("failed to parse "@ + path + (": "@ + source) == b + source);
    let c = "invalid config: "@;
    assert((c + msg).skip(c.len() as int) == msg);
}

// ---------------------------------------------------------------------------
// Agents and places

/// A configured agent is the one that runs, whatever its name; `omp` needs no
/// section, and no other agent is known without one.
pub proof fn lemma_agents(c: Config, name: Seq<char>)
    ensures
        table::lookup(c.agents@, name) matches Some(a) ==> (config::agent_of(
            c,
            name,
        ) matches Some(v) && v.start_cmd == text::texts(a.start_cmd@) && (
        a.resume_cmd is Some <==> v.resume_cmd is Some)),
        table::lookup(c.agents@, name) is None && name != "omp"@ ==> config::agent_of(
            c,
            name,
        ) is None,
        table::lookup(c.agents@, "omp"@) is None ==> config::agent_of(c, "omp"@) is Some,
{
}

/// The built-in agent is handed its instructions and the session's places when
/// it is started, and the message and the same places when it is resumed.
pub proof fn lemma_builtin_agent()
    ensures
        ({
            let agent = config::builtin_omp();
            &&& agent.start_cmd[0] == "omp"@
            &&& agent.start_cmd.contains("@{instructions_file}"@)
            &&& agent.start_cmd.contains("{worktree}"@)
            &&& agent.start_cmd.contains("{session_dir}"@)
            &&& agent.resume_cmd matches Some(argv) && argv[0] == "omp"@ && argv.contains(
                "@{message_file}"@,
            ) && argv.contains("{worktree}"@) && argv.contains("{session_dir}"@) && argv.contains(
                "-c"@,
            )
        }),
{
    let agent = config::builtin_omp();
    assert(agent.start_cmd[2] == "@{instructions_file}"@);
    assert(agent.start_cmd[4] == "{worktree}"@);
    assert(agent.start_cmd[6] == "{session_dir}"@);
    let argv = agent.resume_cmd->0;
    assert(argv[2] == "@{message_file}"@);
    assert(argv[4] == "{worktree}"@);
    assert(argv[6] == "{session_dir}"@);
    assert(argv[7] == "-c"@);
}

/// A repository without an agent of its own is worked on by `omp`.
pub proof fn lemma_agent_names(repo: Repo)
    ensures
        repo.agent matches Some(a) ==> config::agent_name_of(repo) == a@,
        repo.agent is None ==> config::agent_name_of(repo) == "omp"@,
{
}

/// A provider is reached at its own address, or at GitHub's where it names
/// none.
pub proof fn lemma_provider_addresses(p: Provider)
    ensures
        p.url matches Some(url) ==> config::url_of(p) == url@,
        p.url is None ==> config::url_of(p) == "https://api.github.com"@,
{
}

proof fn lemma_name_start(dir: Seq<char>, name: Seq<char>)
    requires
        !name.contains('/'),
    ensures
        paths::name_start(dir.push('/') + name) == dir.len() + 1,
    decreases name.len(),
{
    let p = dir.push('/') + name;
    if name.len() == 0 {
        assert(p == dir.push('/'));
    } else {
        assert(p.last() == name.last());
        assert(p.drop_last() == dir.push('/') + name.drop_last());
        assert(!name.drop_last().contains('/')) by {
            if name.drop_last().contains('/') {
                let i = choose|i: int| 0 <= i < name.drop_last().len() && name.drop_last()[i] == '/';
                assert(name[i] == '/');
            }
        }
        lemma_name_start(dir, name.drop_last());
    }
}

/// The last component of a path is its name, and the path with another name
/// lies beside it.
pub proof fn lemma_siblings(dir: Seq<char>, name: Seq<char>, other: Seq<char>)
    requires
        dir.len() > 0,
        dir.last() != '/',
        paths::bare_path(dir) == dir,
        name.len() > 0,
        !name.contains('/'),
        name != "."@,
        name != ".."@,
        other.len() > 0 ==> other[0] != '/',
    ensures
        paths::file_name_of(dir.push('/') + name) == Some(name),
        paths::renamed(dir.push('/') + name, other) == dir.push('/') + other,
{
    reveal_strlit(".");
    let p = dir.push('/') + name;
    let n = p.len() as int;
    assert(p[n - 1] == name.last());
    if p[n - 1] == '.' && p[n - 2] == '/' {
        if name.len() >= 2 {
            assert(p[n - 2] == name[name.len() - 2]);
        }
        assert(name == "."@);
    }
    assert(paths::bare_path(p) == p);
    lemma_name_start(dir, name);
    assert(p.skip(dir.len() as int + 1) == name);
    assert(p.take(dir.len() as int + 1) == dir.push('/'));
    assert(dir.push('/').drop_last() == dir);
    assert(paths::head_len(dir.push('/')) <= 1);
    assert(paths::bare_path(dir.push('/')) == dir);
}

/// Worktrees lie where the repository says, or in a directory beside its clone
/// that is named after it.
pub proof fn lemma_worktrees_root(repo: Repo, dir: Seq<char>, name: Seq<char>)
    requires
        dir.len() > 0,
        dir.last() != '/',
        paths::bare_path(dir) == dir,
        name.len() > 0,
        !name.contains('/'),
        name != "."@,
        name != ".."@,
        repo.path@ == dir.push('/') + name,
    ensures
        repo.worktrees_root matches Some(root) ==> config::worktrees_root_of(repo) == root@,
        repo.worktrees_root is None ==> config::worktrees_root_of(repo) == dir.push('/') + name
            + "-worktrees"@,
{
    let beside = name + "-worktrees"@;
    assert(beside[0] == name[0]);
    lemma_siblings(dir, name, beside);
    assert(dir.push('/') + beside == dir.push('/') + name + "-worktrees"@);
}

/// A leading `~` is the home directory, alone or with what stands behind it;
/// every other path is left as it is.
pub proof fn lemma_tilde(path: Seq<char>, rest: Seq<char>, home: Seq<char>)
    requires
        home.len() > 0,
        home.last() != '/',
        rest.len() > 0 ==> rest[0] != '/',
    ensures
        paths::expanded("~"@, Some(home)) == home,
        paths::expanded("~/"@ + rest, Some(home)) == home + "/"@ + rest,
        path.len() == 0 || path[0] != '~' ==> paths::expanded(path, Some(home)) == path,
        path.len() > 1 && path[1] != '/' ==> paths::expanded(path, Some(home)) == path,
        paths::home_of(None) == "."@,
        paths::home_of(Some(Seq::empty())) == "."@,
{
    reveal_strlit("~");
    reveal_strlit("~/");
    reveal_strlit("/");
    assert("~"@[0] == '~');
    assert(("~/"@ + rest)[1] == '/');
    text_laws::lemma_behind_a_prefix("~/"@, rest, path);
    assert(text::trimmed_start(rest, text::only('/')) == rest);
    assert(home.push('/') + rest == home + "/"@ + rest);
    if text::after_prefix(path, "~/"@) is Some {
        assert(path[0] == '~' && path[1] == '/');
    }
}

/// The places of configuration and state: what the environment names, or else
/// below the home directory.
pub proof fn lemma_places(named: Seq<char>, home: Seq<char>)
    requires
        named.len() > 0,
        home.len() > 0,
        home.last() != '/',
    ensures
        paths::config_location(Some(named), Some(home)) == named,
        paths::state_location(Some(named), Some(home)) == named,
        paths::config_location(None, Some(home)) == home + "/.config/yardmaster/config.toml"@,
        paths::config_location(Some(Seq::empty()), Some(home)) == home
            + "/.config/yardmaster/config.toml"@,
        paths::state_location(None, Some(home)) == home + "/.local/state/yardmaster"@,
        paths::state_location(Some(Seq::empty()), Some(home)) == home
            + "/.local/state/yardmaster"@,
{
    reveal_strlit(".config");
    reveal_strlit(".local");
    reveal_strlit("state");
    reveal_strlit("yardmaster");
    reveal_strlit("config.toml");
    reveal_strlit("/.config/yardmaster/config.toml");
    reveal_strlit("/.local/state/yardmaster");
    let a = home.push('/') + ".config"@;
    assert(a.last() == 'g');
    let b = a.push('/') + "yardmaster"@;
    assert(b.last() == 'r');
    assert(b.push('/') + "config.toml"@ == home + "/.config/yardmaster/config.toml"@);
    let c = home.push('/') + ".local"@;
    assert(c.last() == 'l');
    let d = c.push('/') + "state"@;
    assert(d.last() == 'e');
    assert(d.push('/') + "yardmaster"@ == home + "/.local/state/yardmaster"@);
}

/// Loading expands the clone's path and the worktrees' root, and changes nothing
/// else of a repository.
pub proof fn lemma_loading_expands_paths(
    before: Repo,
    after: Repo,
    home: Seq<char>,
    rest: Seq<char>,
    root: Seq<char>,
)
    requires
        config::is_expanded(before, after, Some(home)),
        home.len() > 0,
        home.last() != '/',
        rest.len() > 0 ==> rest[0] != '/',
        root.len() > 0 ==> root[0] != '/',
    ensures
        before.path@ == "~/"@ + rest ==> after.path@ == home + "/"@ + rest,
        before.path@.len() > 0 && before.path@[0] == '/' ==> after.path@ == before.path@,
        text::opt_text(before.worktrees_root) == Some("~/"@ + root) ==> text::opt_text(
            after.worktrees_root,
        ) == Some(home + "/"@ + root),
        before.worktrees_root is None ==> after.worktrees_root is None,
        after.forge@ == before.forge@,
        after.base@ == before.base@,
        after.branch_template@ == before.branch_template@,
        after.rebase == before.rebase,
        after.ci_retry_cap == before.ci_retry_cap,
        text::texts(after.check_command@) == text::texts(before.check_command@),
        text::texts(after.setup_hook@) == text::texts(before.setup_hook@),
        text::texts(after.teardown_hook@) == text::texts(before.teardown_hook@),
        text::opt_text(after.provider) == text::opt_text(before.provider),
        text::opt_text(after.remote_repo) == text::opt_text(before.remote_repo),
        text::opt_text(after.agent) == text::opt_text(before.agent),
{
    lemma_tilde(before.path@, rest, home);
    lemma_tilde(before.path@, root, home);
}

// ---------------------------------------------------------------------------
// Slugs

/// Whether a character is one that slugs are made of.
pub open spec fn plain(c: char) -> bool {
    ('a' <= c <= 'z') || ('0' <= c <= '9')
}

/// Letters count without their case, digits as they are, accents not at all;
/// other characters only separate.
pub proof fn lemma_slug_chars(c: char)
    ensures
        plain(c) ==> config::slug_char(c) == Some(c),
        'A' <= c <= 'Z' ==> config::slug_char(c) == Some(((c as u32 + 32) as char)),
        c == ' ' || c == '-' || c == '_' || c == '/' || c == '#' || c == '.' || c == ':' || c == '\''
            ==> config::slug_char(c) is None,
        config::slug_char(c) matches Some(d) ==> plain(d),
        config::slug_char('é') == Some('e'),
        config::slug_char('Ü') == Some('u'),
        config::slug_char('ñ') == Some('n'),
{
}

/// Words are kept, and what separates them becomes one dash.
pub proof fn lemma_slug_joins_words(a: Seq<char>, sep: Seq<char>, b: Seq<char>)
    requires
        a.len() > 0,
        sep.len() > 0,
        b.len() > 0,
        forall|i: int| 0 <= i < a.len() ==> plain(#[trigger] a[i]),
        forall|i: int| 0 <= i < b.len() ==> plain(#[trigger] b[i]),
        forall|i: int| 0 <= i < sep.len() ==> config::slug_char(#[trigger] sep[i]) is None,
    ensures
        config::slug_words(a + sep + b) == a.push('-') + b,
        config::slug_words(a + sep) == a,
        config::slug_words(a) == a,
    decreases a.len() + sep.len() + b.len(),
{
    lemma_word(a);
    lemma_separated(a, sep);
    let s = a + sep + b;
    lemma_slug_chars(b.last());
    assert(s.last() == b.last());
    if b.len() == 1 {
        assert(s.drop_last() == a + sep);
        assert(s[s.len() - 2] == sep.last());
        assert(config::slug_words(s) == a.push('-').push(b[0]));
    } else {
        let init = b.drop_last();
        assert(s.drop_last() == a + sep + init);
        assert(forall|i: int| 0 <= i < init.len() ==> #[trigger] init[i] == b[i]);
        lemma_slug_joins_words(a, sep, init);
        assert(s[s.len() - 2] == b[b.len() - 2]);
        lemma_slug_chars(b[b.len() - 2]);
    }
    assert(config::slug_words(s) == a.push('-') + b);
}

proof fn lemma_word(a: Seq<char>)
    requires
        forall|i: int| 0 <= i < a.len() ==> plain(#[trigger] a[i]),
    ensures
        config::slug_words(a) == a,
    decreases a.len(),
{
    if a.len() > 0 {
        let init = a.drop_last();
        assert(forall|i: int| 0 <= i < init.len() ==> #[trigger] init[i] == a[i]);
        lemma_word(init);
        lemma_slug_chars(a.last());
        if a.len() > 1 {
            lemma_slug_chars(a[a.len() - 2]);
        }
    }
}

proof fn lemma_separated(a: Seq<char>, sep: Seq<char>)
    requires
        forall|i: int| 0 <= i < a.len() ==> plain(#[trigger] a[i]),
        forall|i: int| 0 <= i < sep.len() ==> config::slug_char(#[trigger] sep[i]) is None,
    ensures
        config::slug_words(a + sep) == a,
    decreases sep.len(),
{
    if sep.len() == 0 {
        assert(a + sep == a);
        lemma_word(a);
    } else {
        let init = sep.drop_last();
        assert(forall|i: int| 0 <= i < init.len() ==> #[trigger] init[i] == sep[i]);
        lemma_separated(a, init);
        assert((a + sep).drop_last() == a + init);
        assert((a + sep).last() == sep.last());
    }
}

/// A slug is the words, cut after forty characters, without a dash at its end.
pub proof fn lemma_slug_is_cut(s: Seq<char>)
    ensures
        config::slug_words(s).len() <= 40 && (config::slug_words(s).len() > 0
            ==> config::slug_words(s).last() != '-') ==> config::slug_of(s) == config::slug_words(s),
        config::slug_of(s).is_prefix_of(config::slug_words(s)),
        config::slug_words(s).len() > 40 && config::slug_words(s)[39] != '-'
            ==> config::slug_of(s).len() == 40,
{
    let words = config::slug_words(s);
    let cut = if words.len() > 40 {
        words.take(40)
    } else {
        words
    };
    text_laws::lemma_trimmed_end_keeps_the_head(cut, text::only('-'));
    assert(cut.take(config::slug_of(s).len() as int) == words.take(
        config::slug_of(s).len() as int,
    ));
    if words.len() > 40 && words[39] != '-' {
        assert(cut.last() == words[39]);
    }
}

// ---------------------------------------------------------------------------
// Paths

/// A path joins what it is given: an absolute one stands for itself, nothing in
/// front adds nothing, and there is one separator otherwise.
pub proof fn lemma_joined_paths(base: Seq<char>, child: Seq<char>)
    ensures
        child.len() > 0 && child[0] == '/' ==> paths::joined_path(base, child) == child,
        paths::joined_path(Seq::empty(), child) == child,
        base.len() > 0 && base.last() != '/' && !(child.len() > 0 && child[0] == '/')
            ==> paths::joined_path(base, child) == base + "/"@ + child,
        base.len() > 0 && base.last() == '/' && !(child.len() > 0 && child[0] == '/')
            ==> paths::joined_path(base, child) == base + child,
{
    reveal_strlit("/");
    assert(Seq::<char>::empty() + child == child);
    assert(base.push('/') + child == base + "/"@ + child);
}

/// A separator or a `.` at the end of a path does not count, and `..` is no
/// name.
pub proof fn lemma_ends_of_paths(dir: Seq<char>, name: Seq<char>)
    requires
        dir.len() > 0,
        dir.last() != '/',
        paths::bare_path(dir) == dir,
        name.len() > 0,
        !name.contains('/'),
        name != "."@,
        name != ".."@,
    ensures
        paths::file_name_of((dir.push('/') + name).push('/')) == Some(name),
        paths::file_name_of((dir.push('/') + name).push('/').push('.')) == Some(name),
        paths::file_name_of(dir.push('/') + ".."@) is None,
{
    let p = dir.push('/') + name;
    lemma_siblings(dir, name, name);
    let a = p.push('/');
    let b = a.push('.');
    assert(a.drop_last() == p);
    assert(b.drop_last() == a);
    assert(paths::head_len(a) <= 1 && paths::head_len(b) <= 1);
    assert(paths::bare_path(a) == paths::bare_path(p));
    assert(paths::bare_path(b) == paths::bare_path(a));
    reveal_strlit("..");
    let q = dir.push('/') + ".."@;
    assert(q[q.len() - 1] == '.' && q[q.len() - 2] == '.');
    assert(paths::bare_path(q) == q);
    lemma_name_start(dir, ".."@);
    assert(q.skip(dir.len() as int + 1) == ".."@);
}

/// A clone whose path has no name keeps its worktrees below it.
pub proof fn lemma_nameless_clone(repo: Repo)
    requires
        repo.worktrees_root is None,
        paths::file_name_of(repo.path@) is None,
    ensures
        config::worktrees_root_of(repo) == paths::joined_path(repo.path@, "repo-worktrees"@),
{
    reveal_strlit("repo");
    reveal_strlit("-worktrees");
    reveal_strlit("repo-worktrees");
    assert("repo"@ + "-worktrees"@ == "repo-worktrees"@);
}

// ---------------------------------------------------------------------------
// More on validity

/// What is wrong with a repository is said with its name and the value at
/// fault: the template, the placeholder, the provider or the agent.
pub proof fn lemma_repo_errors_name_the_fault(c: Config, name: Seq<char>, repo: Repo)
    requires
        config::repo_error(c, name, repo) is Some,
    ensures
        ({
            let why = config::repo_error(c, name, repo)->0;
            let segs = config::segments_of(repo.branch_template@);
            if segs is None {
                text::has_text(why, repo.branch_template@)
            } else if config::bad_var(segs->0) is Some {
                text::has_text(why, name) && text::has_text(why, config::bad_var(segs->0)->0)
            } else if repo.provider is Some && table::lookup(
                c.providers@,
                repo.provider->0@,
            ) is None {
                text::has_text(why, name) && text::has_text(why, repo.provider->0@)
                    && text::closes_with(why, "is not a configured [providers.*] entry"@)
            } else {
                text::has_text(why, name) && text::has_text(why, config::agent_name_of(repo))
            }
        }),
{
    lemma_template_errors_quote(repo.branch_template@, name);
    if let Some(segs) = config::segments_of(repo.branch_template@) {
        if let Some(var) = config::bad_var(segs) {
            lemma_two_values(
                "repo '"@,
                name,
                "': branch_template placeholder {"@,
                var,
                "} is not one of {type}, {ticket}, {slug}"@,
            );
        }
    }
    if let Some(p) = repo.provider {
        lemma_two_values(
            "repo '"@,
            name,
            "': provider \""@,
            p@,
            "\" is not a configured [providers.*] entry"@,
        );
        lemma_provider_tail("repo '"@ + name + "': provider \""@ + p@);
    }
    lemma_two_values(
        "repo '"@,
        name,
        "': agent \""@,
        config::agent_name_of(repo),
        "\" is not a configured [agents.*] entry (the built-in \"omp\" needs no section)"@,
    );
}

proof fn lemma_provider_tail(front: Seq<char>)
    ensures
        text::closes_with(
            front + "\" is not a configured [providers.*] entry"@,
            "is not a configured [providers.*] entry"@,
        ),
{
    reveal_strlit("\" is not a configured [providers.*] entry");
    reveal_strlit("is not a configured [providers.*] entry");
    let s = front + "\" is not a configured [providers.*] entry"@;
    let tail = "is not a configured [providers.*] entry"@;
    assert(s.skip(s.len() - tail.len()) == tail);
}

proof fn lemma_two_values(a: Seq<char>, x: Seq<char>, b: Seq<char>, y: Seq<char>, c: Seq<char>)
    ensures
        text::has_text(a + x + b + y + c, x),
        text::has_text(a + x + b + y + c, y),
{
    assert(a + x + b + y + c == a + x + (b + y + c));
    text::lemma_has_middle(a, x, b + y + c);
    text::lemma_has_middle(a + x + b, y, c);
}

/// Accents fall away, from small letters and from capitals alike.
pub proof fn lemma_accents(c: char)
    ensures
        c == 'à' || c == 'á' || c == 'â' || c == 'ã' || c == 'ä' || c == 'å' || c == 'À' || c == 'Á'
            || c == 'Â' || c == 'Ã' || c == 'Ä' || c == 'Å' ==> config::slug_char(c) == Some('a'),
        c == 'ç' || c == 'Ç' ==> config::slug_char(c) == Some('c'),
        c == 'è' || c == 'é' || c == 'ê' || c == 'ë' || c == 'È' || c == 'É' || c == 'Ê' || c == 'Ë'
            ==> config::slug_char(c) == Some('e'),
        c == 'ì' || c == 'í' || c == 'î' || c == 'ï' || c == 'Ì' || c == 'Í' || c == 'Î' || c == 'Ï'
            ==> config::slug_char(c) == Some('i'),
        c == 'ñ' || c == 'Ñ' ==> config::slug_char(c) == Some('n'),
        c == 'ò' || c == 'ó' || c == 'ô' || c == 'õ' || c == 'ö' || c == 'ø' || c == 'Ò' || c == 'Ó'
            || c == 'Ô' || c == 'Õ' || c == 'Ö' || c == 'Ø' ==> config::slug_char(c) == Some('o'),
        c == 'ù' || c == 'ú' || c == 'û' || c == 'ü' || c == 'Ù' || c == 'Ú' || c == 'Û' || c == 'Ü'
            ==> config::slug_char(c) == Some('u'),
        c == 'ý' || c == 'ÿ' || c == 'Ý' || c == 'Ÿ' ==> config::slug_char(c) == Some('y'),
{
}

} // verus!
