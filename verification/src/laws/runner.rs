//! What an agent's process is started with, and how its end is read.

use crate::adapters::{AdapterErrorView, AgentStatusView, AgentTaskView};
use crate::laws::text as text_laws;
use crate::paths;
use crate::runner_omp as runner;
use crate::runner_omp::{ProbeActionView, ProbeEventView, ProbeView};
use crate::text;
use vstd::prelude::*;
use vstd::string::*;

verus! {

// ---------------------------------------------------------------------------
// Arguments

/// Whether a text has no brace in it.
pub open spec fn braceless(s: Seq<char>) -> bool {
    !s.contains('{') && !s.contains('}')
}

proof fn lemma_braced(key: Seq<char>)
    ensures
        "{"@ + key + "}"@ == seq!['{'] + key + seq!['}'],
{
    reveal_strlit("{");
    reveal_strlit("}");
}

proof fn lemma_no_brace_no_placeholder(s: Seq<char>, key: Seq<char>)
    requires
        !s.contains('{'),
    ensures
        !text::has_text(s, "{"@ + key + "}"@),
{
    lemma_braced(key);
    let p = "{"@ + key + "}"@;
    if text::has_text(s, p) {
        let i = choose|i: int| text::occurs_at(s, p, i);
        assert(s.subrange(i, i + p.len())[0] == s[i]);
        assert(p[0] == '{');
    }
}

proof fn lemma_other_placeholder(
    head: Seq<char>,
    key: Seq<char>,
    tail: Seq<char>,
    other: Seq<char>,
    i: int,
)
    requires
        braceless(head),
        braceless(key),
        braceless(tail),
        braceless(other),
        text::occurs_at(head + ("{"@ + key + "}"@) + tail, "{"@ + other + "}"@, i),
    ensures
        i == head.len(),
        other == key,
{
    lemma_braced(key);
    lemma_braced(other);
    let p = "{"@ + other + "}"@;
    let s = head + ("{"@ + key + "}"@) + tail;
    let n = head.len() as int;
    let sub = s.subrange(i, i + p.len());
    assert(sub[0] == s[i] && p[0] == '{');
    assert(i == n) by {
        if i < n {
            assert(s[i] == head[i]);
        } else if n < i <= n + key.len() {
            assert(s[i] == key[i - n - 1]);
        } else if i == n + key.len() + 1 {
            assert(s[i] == '}');
        } else if i > n {
            assert(s[i] == tail[i - n - key.len() - 2]);
        }
    }
    let m = other.len() as int;
    let k = key.len() as int;
    assert(s[n + 1 + k] == '}');
    assert(p[m + 1] == '}' && sub[m + 1] == s[n + m + 1]);
    if m < k {
        assert(s[n + m + 1] == key[m]);
    }
    if k < m {
        assert(sub[k + 1] == s[n + k + 1]);
        assert(p[k + 1] == other[k]);
    }
    assert(other =~= key) by {
        assert forall|j: int| 0 <= j < m implies other[j] == key[j] by {
            assert(sub[j + 1] == s[n + j + 1]);
            assert(p[j + 1] == other[j]);
            assert(s[n + j + 1] == key[j]);
        }
    }
}

/// An argument without braces is handed over as it is.
pub proof fn lemma_plain_arguments_stay(arg: Seq<char>, vars: Seq<(Seq<char>, Seq<char>)>)
    requires
        !arg.contains('{'),
    ensures
        runner::substituted(arg, vars) == arg,
    decreases vars.len(),
{
    if vars.len() > 0 {
        lemma_plain_arguments_stay(arg, vars.drop_last());
        lemma_no_brace_no_placeholder(arg, vars.last().0);
        text_laws::lemma_nothing_to_replace(arg, "{"@ + vars.last().0 + "}"@, vars.last().1);
    }
}

/// A placeholder gives way to its own value, wherever it stands in an argument;
/// one that is not known stays.
pub proof fn lemma_placeholder_is_filled(
    head: Seq<char>,
    key: Seq<char>,
    tail: Seq<char>,
    vars: Seq<(Seq<char>, Seq<char>)>,
)
    requires
        braceless(head),
        braceless(key),
        braceless(tail),
        forall|i: int| 0 <= i < vars.len() ==> braceless((#[trigger] vars[i]).0),
        forall|i: int, j: int|
            0 <= i < j < vars.len() ==> (#[trigger] vars[i]).0 != (#[trigger] vars[j]).0,
        forall|i: int|
            0 <= i < vars.len() && (#[trigger] vars[i]).0 == key ==> !vars[i].1.contains('{'),
    ensures
        forall|i: int|
            0 <= i < vars.len() && (#[trigger] vars[i]).0 == key ==> runner::substituted(
                head + ("{"@ + key + "}"@) + tail,
                vars,
            ) == head + vars[i].1 + tail,
        (forall|i: int| 0 <= i < vars.len() ==> (#[trigger] vars[i]).0 != key)
            ==> runner::substituted(head + ("{"@ + key + "}"@) + tail, vars) == head + ("{"@ + key
            + "}"@) + tail,
    decreases vars.len(),
{
    let arg = head + ("{"@ + key + "}"@) + tail;
    if vars.len() > 0 {
        let init = vars.drop_last();
        let last = vars.last();
        let p = "{"@ + last.0 + "}"@;
        assert(vars[vars.len() - 1] == last);
        assert(forall|i: int| 0 <= i < init.len() ==> #[trigger] init[i] == vars[i]);
        lemma_placeholder_is_filled(head, key, tail, init);
        if exists|i: int| 0 <= i < init.len() && (#[trigger] init[i]).0 == key {
            let i = choose|i: int| 0 <= i < init.len() && (#[trigger] init[i]).0 == key;
            let done = head + init[i].1 + tail;
            assert(vars[i] == init[i]);
            assert(!done.contains('{')) by {
                if done.contains('{') {
                    let j = choose|j: int| 0 <= j < done.len() && done[j] == '{';
                    if j < head.len() {
                        assert(head[j] == '{');
                    } else if j < head.len() + init[i].1.len() {
                        assert(init[i].1[j - head.len()] == '{');
                    } else {
                        assert(tail[j - head.len() - init[i].1.len()] == '{');
                    }
                }
            }
            lemma_no_brace_no_placeholder(done, last.0);
            text_laws::lemma_nothing_to_replace(done, p, last.1);
            assert(runner::substituted(arg, vars) == done);
            assert forall|m: int| 0 <= m < vars.len() && (#[trigger] vars[m]).0 == key implies m
                == i by {
                if m < i {
                    assert(vars[m].0 != vars[i].0);
                } else if m > i {
                    assert(vars[i].0 != vars[m].0);
                }
            }
        } else if last.0 == key {
            assert forall|i: int| 0 <= i < head.len() implies !#[trigger] text::occurs_at(
                head + p + tail,
                p,
                i,
            ) by {
                if text::occurs_at(head + p + tail, p, i) {
                    lemma_other_placeholder(head, key, tail, key, i);
                }
            }
            lemma_braced(key);
            text_laws::lemma_first_is_replaced(head, p, tail, last.1);
            lemma_no_brace_no_placeholder(tail, key);
            text_laws::lemma_nothing_to_replace(tail, p, last.1);
            assert(runner::substituted(arg, vars) == head + last.1 + tail);
            assert forall|m: int| 0 <= m < vars.len() && (#[trigger] vars[m]).0 == key implies m
                == vars.len() - 1 by {
                if m < init.len() {
                    assert(init[m].0 == key);
                }
            }
        } else {
            assert forall|m: int| 0 <= m < vars.len() implies (#[trigger] vars[m]).0 != key by {
                if m < init.len() {
                    assert(init[m].0 != key);
                }
            }
            if text::has_text(arg, p) {
                let i = choose|i: int| text::occurs_at(arg, p, i);
                lemma_other_placeholder(head, key, tail, last.0, i);
            }
            text_laws::lemma_nothing_to_replace(arg, p, last.1);
        }
    }
}

/// A session's placeholders stand for its own task: the worktree, the
/// instructions in its directory, the ticket and the directory itself; a message
/// only where one was given.
pub proof fn lemma_placeholders_are_the_tasks_own(
    dir: Seq<char>,
    task: AgentTaskView,
    message: Seq<char>,
)
    ensures
        ({
            let vars = runner::placeholders(dir, task, None);
            let more = runner::placeholders(dir, task, Some(message));
            &&& vars.contains(("worktree"@, task.worktree))
            &&& vars.contains(("ticket_key"@, task.ticket.key.key))
            &&& vars.contains(("session_dir"@, dir))
            &&& vars.contains(
                ("instructions_file"@, paths::joined_path(dir, "instructions.md"@)),
            )
            &&& vars.len() == 4
            &&& more == vars.push(("message_file"@, message))
        }),
{
    let vars = runner::placeholders(dir, task, None);
    assert(vars[0] == ("worktree"@, task.worktree));
    assert(vars[1] == ("instructions_file"@, paths::joined_path(dir, "instructions.md"@)));
    assert(vars[2] == ("ticket_key"@, task.ticket.key.key));
    assert(vars[3] == ("session_dir"@, dir));
}

/// A command has one argument for each of its template, each filled on its own.
pub proof fn lemma_arguments_one_by_one(
    a: Seq<Seq<char>>,
    b: Seq<Seq<char>>,
    vars: Seq<(Seq<char>, Seq<char>)>,
)
    ensures
        runner::argv_for(a, vars).len() == a.len(),
        runner::argv_for(a + b, vars) == runner::argv_for(a, vars) + runner::argv_for(b, vars),
{
}

/// Ids that are empty or could lead out of the sessions' directory are refused
/// for good, and no others.
pub proof fn lemma_session_ids(root: Seq<char>, id: Seq<char>)
    ensures
        id.len() == 0 || id.contains('/') || id.contains('\\') || text::has_text(id, ".."@)
            <==> runner::session_path(root, id) is Err,
        runner::session_path(root, id) matches Err(e) ==> e == AdapterErrorView::Permanent(
            "malformed session id "@ + text::debug_text(id),
        ),
{
}

/// The number of the next message is above every number that is taken, and the
/// highest taken one is taken indeed.
pub proof fn lemma_message_numbers(stems: Seq<Seq<char>>)
    ensures
        forall|i: int|
            0 <= i < stems.len() ==> (text::parsed_in(
                #[trigger] stems[i],
                false,
                0,
                u32::MAX as int,
            ) matches Some(n) ==> n <= runner::highest_message(stems)),
        runner::highest_message(stems) == 0 || exists|i: int|
            0 <= i < stems.len() && text::parsed_in(
                #[trigger] stems[i],
                false,
                0,
                u32::MAX as int,
            ) == Some(runner::highest_message(stems)),
        0 <= runner::highest_message(stems) <= u32::MAX,
    decreases stems.len(),
{
    if stems.len() > 0 {
        let init = stems.drop_last();
        lemma_message_numbers(init);
        let top = runner::highest_message(stems);
        assert(forall|i: int| 0 <= i < init.len() ==> #[trigger] init[i] == stems[i]);
        assert forall|i: int| 0 <= i < stems.len() implies (text::parsed_in(
            #[trigger] stems[i],
            false,
            0,
            u32::MAX as int,
        ) matches Some(n) ==> n <= top) by {
            if i < init.len() {
                assert(stems[i] == init[i]);
            } else {
                assert(stems[i] == stems.last());
            }
        }
        assert(stems[stems.len() - 1] == stems.last());
        if runner::highest_message(init) == top && top != 0 {
            if exists|i: int|
                0 <= i < init.len() && text::parsed_in(
                    #[trigger] init[i],
                    false,
                    0,
                    u32::MAX as int,
                ) == Some(top) {
                let i = choose|i: int|
                    0 <= i < init.len() && text::parsed_in(
                        #[trigger] init[i],
                        false,
                        0,
                        u32::MAX as int,
                    ) == Some(top);
                assert(stems[i] == init[i]);
            }
        }
    }
}

// ---------------------------------------------------------------------------
// Exit records

proof fn lemma_number_is_solid(n: int)
    ensures
        text::trimmed(text::int_text(n)) == text::int_text(n),
        text::int_text(n).len() > 0,
        !text::is_white_space(text::int_text(n).last()),
        !text::is_white_space(text::int_text(n)[0]),
        text::denoted(text::int_text(n), true) == Some(n),
{
    text::lemma_int_text_denotes(n);
    let s = text::int_text(n);
    if n < 0 {
        text::lemma_int_text_denotes(-n);
        assert(s == seq!['-'] + text::int_text(-n));
        assert(s.last() == text::int_text(-n).last());
    }
    assert(text::trimmed_end(s, text::white()) == s);
}

/// A process that exited on its own and left nothing to say succeeded exactly
/// where its code is zero; a failure names the code.
pub proof fn lemma_exit_code_is_read_back(code: i32, signal: Option<i32>)
    ensures
        ({
            let status = runner::inferred(Some(runner::exit_text(true, Some(code), signal)));
            &&& code == 0 ==> (status matches AgentStatusView::Finished { success, .. } && success)
            &&& code != 0 ==> (status matches AgentStatusView::Failed { message } && text::has_text(
                message,
                text::int_text(code as int),
            ))
        }),
{
    let s = text::int_text(code as int);
    lemma_number_is_solid(code as int);
    lemma_number_is_solid(0);
    reveal_strlit("0");
    assert(text::int_text(0) == "0"@);
    if code != 0 {
        assert(s != "0"@);
        text::lemma_has_middle("backend exited with code "@, s, " without result.json"@);
    }
}

/// A process that a signal killed has failed, and the signal is named.
pub proof fn lemma_signal_is_read_back(signal: i32)
    ensures
        runner::inferred(
            Some(runner::exit_text(true, None, Some(signal))),
        ) matches AgentStatusView::Failed { message } && text::has_text(
            message,
            text::int_text(signal as int),
        ),
{
    let n = text::int_text(signal as int);
    let record = "signal:"@ + n;
    lemma_signal_record(n, signal as int);
    let message = "backend killed by "@ + record;
    assert(message == ("backend killed by "@ + "signal:"@) + n + Seq::<char>::empty());
    text::lemma_has_middle("backend killed by "@ + "signal:"@, n, Seq::empty());
}

proof fn lemma_signal_record(n: Seq<char>, signal: int)
    requires
        n == text::int_text(signal),
    ensures
        text::trimmed("signal:"@ + n) == "signal:"@ + n,
        "signal:"@ + n != "0"@,
        text::opens_with("signal:"@ + n, "signal:"@),
        text::denoted("signal:"@ + n, true) is None,
{
    lemma_number_is_solid(signal);
    reveal_strlit("signal:");
    reveal_strlit("0");
    let record = "signal:"@ + n;
    assert(record[0] == 's');
    assert(record.last() == n.last());
    assert(!text::is_white_space('s'));
    assert(text::trimmed_end(record, text::white()) == record);
    assert("0"@[0] == '0');
    assert(record.take(7) == "signal:"@);
    assert(!text::all_digits(record)) by {
        assert(!('0' <= record[0] <= '9'));
    }
}

/// Nothing but a zero is taken for success where the backend said nothing.
pub proof fn lemma_only_zero_is_success(record: Option<Seq<char>>)
    requires
        !(runner::inferred(record) is Failed),
    ensures
        record matches Some(raw) && text::trimmed(raw) == "0"@,
        runner::inferred(record) matches AgentStatusView::Finished { success, .. } && success,
{
}

/// A process id is read back as it was written, with a line end or without.
pub proof fn lemma_pid_is_read_back(pid: i32)
    ensures
        runner::pid_in(text::int_text(pid as int)) == Ok::<int, AdapterErrorView>(pid as int),
        runner::pid_in(text::int_text(pid as int).push('\n')) == Ok::<int, AdapterErrorView>(
            pid as int,
        ),
{
    let s = text::int_text(pid as int);
    lemma_number_is_solid(pid as int);
    let w = text::white();
    assert(w('\n'));
    assert(s.push('\n').drop_last() == s);
    assert(text::trimmed_end(s, w) == s);
    assert(text::trimmed_end(s.push('\n'), w) == s);
}

// ---------------------------------------------------------------------------
// Probing

/// A session is running exactly where its process was found alive.
pub proof fn lemma_running_means_alive(state: ProbeView, event: ProbeEventView)
    ensures
        runner::probe_next(state, event).1 == ProbeActionView::Finish(
            Ok::<AgentStatusView, AdapterErrorView>(AgentStatusView::Running),
        ) ==> state is Alive && event == ProbeEventView::Alive(true),
        runner::probe_next(ProbeView::Alive, ProbeEventView::Alive(true)).1
            == ProbeActionView::Finish(
            Ok::<AgentStatusView, AdapterErrorView>(AgentStatusView::Running),
        ),
{
}

/// A file that cannot be read ends the probe with that very error.
pub proof fn lemma_unreadable_file_is_reported(state: ProbeView, error: AdapterErrorView)
    requires
        state is Question || state is Exit || state is Pid || state is PidAgain || state is Grace,
    ensures
        runner::probe_next(state, ProbeEventView::File(Err(error))).1 == ProbeActionView::Finish(
            Err::<AgentStatusView, AdapterErrorView>(error),
        ),
{
}

/// Without a question the exit record is read, without a record the process id,
/// and with one the process is looked at.
pub proof fn lemma_probe_reads_in_order(pid: i32)
    ensures
        runner::probe_next(ProbeView::Question, ProbeEventView::File(Ok(None))).1
            == ProbeActionView::Read("exit_code"@),
        runner::probe_next(ProbeView::Exit, ProbeEventView::File(Ok(None))).1
            == ProbeActionView::Read("pid"@),
        runner::probe_next(
            ProbeView::Pid,
            ProbeEventView::File(Ok(Some(text::int_text(pid as int)))),
        ) == (ProbeView::Alive, ProbeActionView::CheckPid(pid as int)),
{
    lemma_pid_is_read_back(pid);
}

/// Once there is an exit record, whenever it came, the backend's own outcome is
/// looked for, and without one the record decides.
pub proof fn lemma_exit_record_decides(state: ProbeView, record: Seq<char>)
    requires
        state is Exit || state is Grace,
    ensures
        ({
            let found = runner::probe_next(state, ProbeEventView::File(Ok(Some(record))));
            let settled = runner::probe_next(found.0, ProbeEventView::Outcome(Ok(None)));
            &&& found.1 is ReadOutcome
            &&& settled.1 == ProbeActionView::Finish(
                Ok::<AgentStatusView, AdapterErrorView>(runner::inferred(Some(record))),
            )
        }),
{
}

/// A dead process gets ten looks for its exit record, and no more.
pub proof fn lemma_ten_looks(n: int)
    requires
        0 <= n <= 9,
    ensures
        ({
            let next = runner::probe_next(ProbeView::Grace(n), ProbeEventView::File(Ok(None)));
            &&& n < 9 ==> next == (ProbeView::Grace(n + 1), ProbeActionView::WaitForExit)
            &&& n == 9 ==> next.1 is ReadOutcome && next.0 == ProbeView::Outcome(None)
        }),
{
}

/// A finished session reports what its backend said, success and words alike;
/// an outcome that cannot be read is an error.
pub proof fn lemma_outcome_is_reported(
    record: Option<Seq<char>>,
    success: bool,
    summary: Seq<char>,
    error: AdapterErrorView,
)
    ensures
        runner::probe_next(
            ProbeView::Outcome(record),
            ProbeEventView::Outcome(Ok(Some((success, summary)))),
        ).1 matches ProbeActionView::Finish(Ok(status)) && (
        status matches AgentStatusView::Finished { success: said, summary: words } && said
            == success && words == summary),
        runner::probe_next(
            ProbeView::Outcome(record),
            ProbeEventView::Outcome(Err(error)),
        ).1 == ProbeActionView::Finish(Err::<AgentStatusView, AdapterErrorView>(error)),
{
}

/// The words of a question are what the file holds, up to the white space at its
/// end.
pub proof fn lemma_question_is_passed_on(prompt: Seq<char>)
    requires
        prompt.len() > 0,
        !text::is_white_space(prompt.last()),
    ensures
        runner::probe_next(
            ProbeView::Question,
            ProbeEventView::File(Ok(Some(prompt.push('\n')))),
        ).1 == ProbeActionView::Finish(
            Ok::<AgentStatusView, AdapterErrorView>(AgentStatusView::WaitingInput { prompt }),
        ),
{
    let w = text::white();
    assert(prompt.push('\n').drop_last() == prompt);
    assert(text::trimmed_end(prompt, w) == prompt);
    assert(w('\n'));
    assert(text::trimmed_end(prompt.push('\n'), w) == prompt);
}

/// A process that is gone, or was never recorded, is looked for once more; where
/// it has an id the wait for its record begins, and where it has none its
/// outcome is read without one.
pub proof fn lemma_dead_process_is_waited_for(pid: i32)
    ensures
        runner::probe_next(ProbeView::Alive, ProbeEventView::Alive(false)) == (
            ProbeView::PidAgain,
            ProbeActionView::Read("pid"@),
        ),
        runner::probe_next(ProbeView::Pid, ProbeEventView::File(Ok(None))) == (
            ProbeView::PidAgain,
            ProbeActionView::Read("pid"@),
        ),
        runner::probe_next(
            ProbeView::PidAgain,
            ProbeEventView::File(Ok(Some(text::int_text(pid as int)))),
        ) == (ProbeView::Grace(0), ProbeActionView::WaitForExit),
        runner::probe_next(ProbeView::PidAgain, ProbeEventView::File(Ok(None))) == (
            ProbeView::Outcome(None),
            ProbeActionView::ReadOutcome,
        ),
{
    lemma_pid_is_read_back(pid);
}

/// What is known of an outcome that nobody recorded is quoted.
pub proof fn lemma_unrecorded_quotes(known: Seq<char>)
    ensures
        text::has_text(runner::unrecorded(known), known),
{
    text::lemma_has_middle("backend outcome unrecorded ("@, known, ")"@);
}

} // verus!
