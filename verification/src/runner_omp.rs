//! Agent supervision over plain child processes.
//!
//! A backend is a pair of argument templates. `{placeholders}` in them are
//! substituted per session:
//!
//! | placeholder           | value                                      |
//! |-----------------------|--------------------------------------------|
//! | `{worktree}`          | worktree of the task                       |
//! | `{instructions_file}` | `<session_dir>/instructions.md`            |
//! | `{ticket_key}`        | key of the ticket                          |
//! | `{session_dir}`       | the session directory                      |
//! | `{message_file}`      | resume only: path of the follow-up message |
//!
//! Everything about a session lies in files under `<sessions_root>/<id>/`. The
//! backend may write `result.json` (its outcome), `usage.json` (tokens) and
//! `question` (it waits for human input). The supervisor writes `pid` and, once
//! the process has exited, `exit_code`.

use crate::adapters::{
    AdapterError, AdapterErrorView, AdapterResult, AgentSessionId, AgentStatus, AgentStatusView,
    AgentTask, AgentTaskView, TokenUsage,
};
use crate::paths;
use crate::paths::join_path;
use crate::text;
use crate::text::{
    chars_of, contains_char, contains_text, copy_strings, debug_quoted, hex_string, i32_problem,
    i32_string, parse_i32, parse_u32, replace, starts_with, string_between, text_eq, trim,
    trim_end,
};
use vstd::prelude::*;
use vstd::string::*;

verus! {

pub const INSTRUCTIONS_FILE: &'static str = "instructions.md";

pub const TASK_FILE: &'static str = "task.json";

pub const TRANSCRIPT_FILE: &'static str = "transcript.log";

pub const PID_FILE: &'static str = "pid";

pub const EXIT_FILE: &'static str = "exit_code";

pub const RESULT_FILE: &'static str = "result.json";

pub const USAGE_FILE: &'static str = "usage.json";

pub const QUESTION_FILE: &'static str = "question";

pub const MESSAGES_DIR: &'static str = "messages";

/// Attempts to find an unused session id.
pub const ALLOCATE_ATTEMPTS: u32 = 16;

/// How often a missing exit record is looked for again before it is given up.
pub const GRACE_POLLS: u32 = 10;

/// Argument templates of one agent backend.
#[derive(Debug, PartialEq)]
pub struct BackendSpec {
    /// Starts a session; must not be empty.
    pub start_cmd: Vec<String>,
    /// Resumes a session; `None` when the backend cannot be resumed.
    pub resume_cmd: Option<Vec<String>>,
}

#[verifier::ext_equal]
pub struct BackendSpecView {
    pub start_cmd: Seq<Seq<char>>,
    pub resume_cmd: Option<Seq<Seq<char>>>,
}

impl View for BackendSpec {
    type V = BackendSpecView;

    open spec fn view(&self) -> BackendSpecView {
        BackendSpecView {
            start_cmd: text::texts(self.start_cmd@),
            resume_cmd: match self.resume_cmd {
                Some(v) => Some(text::texts(v@)),
                None => None,
            },
        }
    }
}

impl Clone for BackendSpec {
    fn clone(&self) -> (r: BackendSpec)
        ensures
            r@ == self@,
    {
        BackendSpec {
            start_cmd: copy_strings(&self.start_cmd),
            resume_cmd: match &self.resume_cmd {
                Some(v) => Some(copy_strings(v)),
                None => None,
            },
        }
    }
}

/// Runner of one backend's sessions.
pub struct ProcessRunner {
    pub spec: BackendSpec,
    pub sessions_root: String,
}

// ---------------------------------------------------------------------------
// Sessions

/// Ids that could escape the sessions root are malformed.
pub open spec fn is_session_id(id: Seq<char>) -> bool {
    id.len() > 0 && !id.contains('/') && !id.contains('\\') && !text::has_text(id, ".."@)
}

/// The directory of a session.
pub open spec fn session_path(root: Seq<char>, id: Seq<char>) -> Result<
    Seq<char>,
    AdapterErrorView,
> {
    if is_session_id(id) {
        Ok(paths::joined_path(root, id))
    } else {
        Err(AdapterErrorView::Permanent("malformed session id "@ + text::debug_text(id)))
    }
}

/// How a result agrees with its specification.
pub open spec fn path_result(
    r: AdapterResult<String>,
    v: Result<Seq<char>, AdapterErrorView>,
) -> bool {
    match (r, v) {
        (Ok(a), Ok(b)) => a@ == b,
        (Err(a), Err(b)) => a@ == b,
        _ => false,
    }
}

/// A session directory lies directly below the sessions root.
pub proof fn lemma_sessions_stay_below_the_root(root: Seq<char>, id: Seq<char>)
    requires
        session_path(root, id) is Ok,
    ensures
        ({
            let sep = if root.len() == 0 || root.last() == '/' {
                Seq::empty()
            } else {
                seq!['/']
            };
            session_path(root, id) == Ok::<Seq<char>, AdapterErrorView>(root + sep + id)
                && !id.contains('/') && id != ".."@
        }),
{
    if id.len() > 0 && id[0] == '/' {
        assert(id.contains('/'));
    }
    if id == ".."@ {
        assert(id.subrange(0, id.len() as int) == ".."@);
        assert(text::occurs_at(id, ".."@, 0));
    }
    if root.len() == 0 || root.last() == '/' {
        assert(root + Seq::<char>::empty() + id == root + id);
    } else {
        assert(root.push('/') + id == root + seq!['/'] + id);
    }
}

impl ProcessRunner {
    pub fn new(spec: BackendSpec, sessions_root: String) -> (r: ProcessRunner)
        ensures
            r.spec == spec,
            r.sessions_root == sessions_root,
    {
        ProcessRunner { spec, sessions_root }
    }

    /// The directory of a session. Ids come from [`session_id`] but are read
    /// back from storage, so they are checked.
    pub fn session_dir(&self, id: &AgentSessionId) -> (r: AdapterResult<String>)
        ensures
            path_result(r, session_path(self.sessions_root@, id.0@)),
    {
        let s = id.0.as_str();
        if chars_of(s).len() == 0 || contains_char(s, '/') || contains_char(s, '\\')
            || contains_text(s, "..") {
            return Err(
                AdapterError::Permanent(
                    "malformed session id ".to_owned().concat(debug_quoted(s).as_str()),
                ),
            );
        }
        Ok(join_path(self.sessions_root.as_str(), s))
    }

    /// The directory of a session that exists; `found` says whether there is a
    /// directory at its path.
    pub fn existing_session_dir(&self, id: &AgentSessionId, found: bool) -> (r: AdapterResult<
        String,
    >)
        ensures
            path_result(
                r,
                match session_path(self.sessions_root@, id.0@) {
                    Err(e) => Err(e),
                    Ok(dir) => if found {
                        Ok(dir)
                    } else {
                        Err(
                            AdapterErrorView::Permanent(
                                "unknown session "@ + text::debug_text(id.0@),
                            ),
                        )
                    },
                },
            ),
    {
        match self.session_dir(id) {
            Err(e) => Err(e),
            Ok(dir) => if found {
                Ok(dir)
            } else {
                Err(
                    AdapterError::Permanent(
                        "unknown session ".to_owned().concat(debug_quoted(id.0.as_str()).as_str()),
                    ),
                )
            },
        }
    }

    /// The transcript of a session.
    pub fn transcript_path(&self, id: &AgentSessionId) -> (r: AdapterResult<String>)
        ensures
            path_result(
                r,
                match session_path(self.sessions_root@, id.0@) {
                    Err(e) => Err(e),
                    Ok(dir) => Ok(paths::joined_path(dir, TRANSCRIPT_FILE@)),
                },
            ),
    {
        match self.session_dir(id) {
            Err(e) => Err(e),
            Ok(dir) => Ok(join_path(dir.as_str(), TRANSCRIPT_FILE)),
        }
    }

    /// The transcript of a session, where it is there.
    pub fn transcript(&self, id: &AgentSessionId, there: bool) -> (r: AdapterResult<Option<String>>)
        ensures
            match (r, session_path(self.sessions_root@, id.0@)) {
                (Err(a), Err(b)) => a@ == b,
                (Ok(None), Ok(_)) => !there,
                (Ok(Some(path)), Ok(dir)) => there && path@ == paths::joined_path(
                    dir,
                    TRANSCRIPT_FILE@,
                ),
                _ => false,
            },
    {
        match self.transcript_path(id) {
            Err(e) => Err(e),
            Ok(path) => Ok(
                if there {
                    Some(path)
                } else {
                    None
                },
            ),
        }
    }
}

/// A session id: the first twelve of sixteen hexadecimal digits.
pub fn session_id(hash: u64) -> (r: String)
    ensures
        r@ == text::hex_text(hash as nat, 16).take(12),
        is_session_id(r@),
{
    let digits = hex_string(hash, 16);
    let chars = chars_of(digits.as_str());
    proof {
        lemma_hex(hash as nat, 16);
    }
    let id = string_between(&chars, 0, 12);
    proof {
        assert(id@ == text::hex_text(hash as nat, 16).take(12));
        assert forall|i: int| 0 <= i < 12 implies is_hex(#[trigger] id@[i]) by {
            assert(is_hex(text::hex_text(hash as nat, 16)[i]));
        }
        if text::has_text(id@, ".."@) {
            reveal_strlit("..");
            let k = choose|k: int| text::occurs_at(id@, ".."@, k);
            assert(id@.subrange(k, k + 2)[0] == '.');
            assert(is_hex(id@[k]));
        }
    }
    id
}

pub open spec fn is_hex(c: char) -> bool {
    ('0' <= c <= '9') || ('a' <= c <= 'f')
}

proof fn lemma_hex(n: nat, width: nat)
    ensures
        text::hex_text(n, width).len() == width,
        forall|i: int| 0 <= i < width ==> is_hex(#[trigger] text::hex_text(n, width)[i]),
    decreases width,
{
    if width > 0 {
        lemma_hex(n / 16, (width - 1) as nat);
        let init = text::hex_text(n / 16, (width - 1) as nat);
        assert forall|i: int| 0 <= i < width implies is_hex(
            #[trigger] text::hex_text(n, width)[i],
        ) by {
            if i < width - 1 {
                assert(text::hex_text(n, width)[i] == init[i]);
            }
        }
    }
}

/// What came of creating the directory of a fresh session id.
pub enum MakeDir {
    Created,
    Taken,
    Failed(String),
}

/// After an attempt at a fresh session: done, another attempt, or an error.
pub enum Allocation {
    Done,
    Again,
    Fail(AdapterError),
}

/// Decides on one attempt to create a session directory. An id that is taken
/// is replaced by another one, up to the limit.
pub fn allocate_step(attempt: u32, dir: &str, made: MakeDir) -> (r: Allocation)
    requires
        attempt < ALLOCATE_ATTEMPTS,
    ensures
        match made {
            MakeDir::Created => r is Done,
            MakeDir::Taken => if attempt + 1 < ALLOCATE_ATTEMPTS {
                r is Again
            } else {
                r matches Allocation::Fail(e) && e@ == AdapterErrorView::Transient(
                    "could not allocate a unique session id"@,
                )
            },
            MakeDir::Failed(cause) => r matches Allocation::Fail(e) && e@
                == AdapterErrorView::Transient(
                "creating session dir "@ + dir@ + ": "@ + cause@,
            ),
        },
{
    match made {
        MakeDir::Created => Allocation::Done,
        MakeDir::Taken => if attempt + 1 < ALLOCATE_ATTEMPTS {
            Allocation::Again
        } else {
            Allocation::Fail(
                AdapterError::Transient("could not allocate a unique session id".to_owned()),
            )
        },
        MakeDir::Failed(cause) => Allocation::Fail(
            AdapterError::Transient(
                "creating session dir ".to_owned().concat(dir).concat(": ").concat(cause.as_str()),
            ),
        ),
    }
}

// ---------------------------------------------------------------------------
// Commands

pub open spec fn pair_texts(v: Seq<(&'static str, String)>) -> Seq<(Seq<char>, Seq<char>)> {
    Seq::new(v.len(), |i: int| (v[i].0@, v[i].1@))
}

/// The values of a session's placeholders.
pub open spec fn placeholders(
    session_dir: Seq<char>,
    task: AgentTaskView,
    message_file: Option<Seq<char>>,
) -> Seq<(Seq<char>, Seq<char>)> {
    let vars = seq![
        ("worktree"@, task.worktree),
        ("instructions_file"@, paths::joined_path(session_dir, INSTRUCTIONS_FILE@)),
        ("ticket_key"@, task.ticket.key.key),
        ("session_dir"@, session_dir),
    ];
    match message_file {
        Some(path) => vars.push(("message_file"@, path)),
        None => vars,
    }
}

pub fn placeholder_vars(session_dir: &str, task: &AgentTask, message_file: Option<&str>) -> (r: Vec<
    (&'static str, String),
>)
    ensures
        pair_texts(r@) == placeholders(session_dir@, task@, text::opt_str_text(message_file)),
{
    let mut vars: Vec<(&'static str, String)> = Vec::new();
    vars.push(("worktree", task.worktree.clone()));
    vars.push(("instructions_file", join_path(session_dir, INSTRUCTIONS_FILE)));
    vars.push(("ticket_key", task.ticket.key.key.clone()));
    vars.push(("session_dir", session_dir.to_owned()));
    let ghost first = pair_texts(vars@);
    assert(first == placeholders(session_dir@, task@, None));
    if let Some(path) = message_file {
        vars.push(("message_file", path.to_owned()));
        assert(pair_texts(vars@) == first.push(("message_file"@, path@)));
    }
    vars
}

/// A text with `{key}` replaced by its value, one placeholder after the other.
pub open spec fn substituted(arg: Seq<char>, vars: Seq<(Seq<char>, Seq<char>)>) -> Seq<char>
    decreases vars.len(),
{
    if vars.len() == 0 {
        arg
    } else {
        text::replaced(
            substituted(arg, vars.drop_last()),
            "{"@ + vars.last().0 + "}"@,
            vars.last().1,
        )
    }
}

fn substitute_one(arg: &str, vars: &Vec<(&'static str, String)>) -> (r: String)
    ensures
        r@ == substituted(arg@, pair_texts(vars@)),
{
    let ghost pairs = pair_texts(vars@);
    let mut out = arg.to_owned();
    let mut i: usize = 0;
    assert(pairs.take(0) == Seq::<(Seq<char>, Seq<char>)>::empty());
    while i < vars.len()
        invariant
            i <= vars@.len(),
            pairs == pair_texts(vars@),
            out@ == substituted(arg@, pairs.take(i as int)),
        decreases vars@.len() - i,
    {
        let token = "{".to_owned().concat(vars[i].0).concat("}");
        proof {
            reveal_strlit("{");
            assert(token@.len() > 0);
            assert(pairs.take(i + 1).drop_last() == pairs.take(i as int));
            assert(pairs.take(i + 1).last() == pairs[i as int]);
        }
        out = replace(out.as_str(), token.as_str(), vars[i].1.as_str());
        i = i + 1;
    }
    assert(pairs.take(i as int) == pairs);
    out
}

/// Replaces `{key}` tokens in every argument. Unknown tokens survive.
pub fn substitute(template: &Vec<String>, vars: &Vec<(&'static str, String)>) -> (r: Vec<String>)
    ensures
        text::texts(r@) == Seq::new(
            template@.len(),
            |i: int| substituted(template@[i]@, pair_texts(vars@)),
        ),
{
    let mut out: Vec<String> = Vec::new();
    let mut i: usize = 0;
    while i < template.len()
        invariant
            i <= template@.len(),
            out@.len() == i,
            forall|k: int|
                0 <= k < i ==> (#[trigger] out@[k])@ == substituted(
                    template@[k]@,
                    pair_texts(vars@),
                ),
        decreases template@.len() - i,
    {
        out.push(substitute_one(template[i].as_str(), vars));
        i = i + 1;
    }
    assert(text::texts(out@) == Seq::new(
        template@.len(),
        |i: int| substituted(template@[i]@, pair_texts(vars@)),
    ));
    out
}

/// The arguments of a session's process, or why there are none.
pub open spec fn argv_for(
    template: Seq<Seq<char>>,
    vars: Seq<(Seq<char>, Seq<char>)>,
) -> Seq<Seq<char>> {
    Seq::new(template.len(), |i: int| substituted(template[i], vars))
}

impl ProcessRunner {
    /// Whether a session can be started at all.
    pub fn check_start(&self) -> (r: AdapterResult<()>)
        ensures
            match r {
                Ok(_) => self.spec.start_cmd@.len() > 0,
                Err(e) => self.spec.start_cmd@.len() == 0 && e@ == AdapterErrorView::Permanent(
                    "backend start command is empty"@,
                ),
            },
    {
        if self.spec.start_cmd.len() == 0 {
            Err(AdapterError::Permanent("backend start command is empty".to_owned()))
        } else {
            Ok(())
        }
    }

    /// The arguments that start a session.
    pub fn start_argv(&self, session_dir: &str, task: &AgentTask) -> (r: Vec<String>)
        ensures
            text::texts(r@) == argv_for(
                self.spec@.start_cmd,
                placeholders(session_dir@, task@, None),
            ),
    {
        let out = substitute(&self.spec.start_cmd, &placeholder_vars(session_dir, task, None));
        assert(text::texts(out@) == argv_for(
            self.spec@.start_cmd,
            placeholders(session_dir@, task@, None),
        ));
        out
    }

    /// Whether a session can be resumed at all.
    pub fn check_resume(&self) -> (r: AdapterResult<()>)
        ensures
            match r {
                Ok(_) => self.spec.resume_cmd is Some,
                Err(e) => self.spec.resume_cmd is None && e@ == AdapterErrorView::Permanent(
                    "backend has no resume command configured"@,
                ),
            },
    {
        if self.spec.resume_cmd.is_none() {
            Err(AdapterError::Permanent("backend has no resume command configured".to_owned()))
        } else {
            Ok(())
        }
    }

    /// The arguments that resume a session with a follow-up message.
    pub fn resume_argv(&self, session_dir: &str, task: &AgentTask, message_file: &str) -> (r:
        AdapterResult<Vec<String>>)
        ensures
            match (r, self.spec@.resume_cmd) {
                (Ok(argv), Some(template)) => text::texts(argv@) == argv_for(
                    template,
                    placeholders(session_dir@, task@, Some(message_file@)),
                ),
                (Err(e), None) => e@ == AdapterErrorView::Permanent(
                    "backend has no resume command configured"@,
                ),
                _ => false,
            },
    {
        match &self.spec.resume_cmd {
            None => Err(
                AdapterError::Permanent("backend has no resume command configured".to_owned()),
            ),
            Some(template) => {
                let out = substitute(
                    template,
                    &placeholder_vars(session_dir, task, Some(message_file)),
                );
                assert(text::texts(out@) == argv_for(
                    text::texts(template@),
                    placeholders(session_dir@, task@, Some(message_file@)),
                ));
                Ok(out)
            },
        }
    }
}

/// Whether a command line names a program.
pub fn check_argv(argv: &Vec<String>) -> (r: AdapterResult<()>)
    ensures
        match r {
            Ok(_) => argv@.len() > 0,
            Err(e) => argv@.len() == 0 && e@ == AdapterErrorView::Permanent(
                "backend command template is empty"@,
            ),
        },
{
    if argv.len() == 0 {
        Err(AdapterError::Permanent("backend command template is empty".to_owned()))
    } else {
        Ok(())
    }
}

/// The largest number among the stems of the message files, 0 without any.
/// Stems that are no number are skipped.
pub open spec fn highest_message(stems: Seq<Seq<char>>) -> int
    decreases stems.len(),
{
    if stems.len() == 0 {
        0
    } else {
        let rest = highest_message(stems.drop_last());
        match text::parsed_in(stems.last(), false, 0, u32::MAX as int) {
            Some(n) => if n > rest {
                n
            } else {
                rest
            },
            None => rest,
        }
    }
}

/// The number of the next message file; `None` when no number is left.
pub fn next_message_number(stems: &Vec<String>) -> (r: Option<u32>)
    ensures
        match r {
            Some(n) => n == highest_message(text::texts(stems@)) + 1,
            None => highest_message(text::texts(stems@)) == u32::MAX,
        },
{
    let ghost all = text::texts(stems@);
    let mut max: u32 = 0;
    let mut i: usize = 0;
    assert(all.take(0) == Seq::<Seq<char>>::empty());
    while i < stems.len()
        invariant
            i <= stems@.len(),
            all == text::texts(stems@),
            max == highest_message(all.take(i as int)),
        decreases stems@.len() - i,
    {
        assert(all.take(i + 1).drop_last() == all.take(i as int));
        assert(all.take(i + 1).last() == stems@[i as int]@);
        if let Some(n) = parse_u32(stems[i].as_str()) {
            if n > max {
                max = n;
            }
        }
        i = i + 1;
    }
    assert(all.take(i as int) == all);
    if max == u32::MAX {
        None
    } else {
        Some(max + 1)
    }
}

// ---------------------------------------------------------------------------
// Exit records

/// What is recorded of a process that ended: its exit code, or the signal that
/// killed it.
pub open spec fn exit_text(waited: bool, code: Option<i32>, signal: Option<i32>) -> Seq<char> {
    if !waited {
        "unknown"@
    } else {
        match code {
            Some(c) => text::int_text(c as int),
            None => "signal:"@ + text::int_text(
                match signal {
                    Some(n) => n as int,
                    None => 0,
                },
            ),
        }
    }
}

pub fn exit_record(waited: bool, code: Option<i32>, signal: Option<i32>) -> (r: String)
    ensures
        r@ == exit_text(waited, code, signal),
{
    if !waited {
        return "unknown".to_owned();
    }
    match code {
        Some(c) => i32_string(c),
        None => {
            let n: i32 = match signal {
                Some(n) => n,
                None => 0,
            };
            "signal:".to_owned().concat(i32_string(n).as_str())
        },
    }
}

/// What is known of a backend that left no exit record.
pub const NO_RECORD: &'static str =
    "exited without a record; supervisor restarted before exit?";

/// The message of a backend whose outcome nobody recorded.
pub open spec fn unrecorded(known: Seq<char>) -> Seq<char> {
    "backend outcome unrecorded ("@ + known + ")"@
}

fn unrecorded_message(known: &str) -> (r: String)
    ensures
        r@ == unrecorded(known@),
{
    "backend outcome unrecorded (".to_owned().concat(known).concat(")")
}

/// The status that an exit record stands for when the backend left no outcome
/// of its own.
pub open spec fn inferred(record: Option<Seq<char>>) -> AgentStatusView {
    match record {
        None => AgentStatusView::Failed { message: unrecorded(NO_RECORD@) },
        Some(raw) => {
            let code = text::trimmed(raw);
            if code == "0"@ {
                AgentStatusView::Finished {
                    success: true,
                    summary: "backend exited 0 without result.json"@,
                }
            } else if text::parsed_in(code, true, i32::MIN as int, i32::MAX as int) is Some {
                AgentStatusView::Failed {
                    message: "backend exited with code "@ + code + " without result.json"@,
                }
            } else if text::opens_with(code, "signal:"@) {
                AgentStatusView::Failed { message: "backend killed by "@ + code }
            } else {
                AgentStatusView::Failed { message: unrecorded(code) }
            }
        },
    }
}

pub fn infer_status(record: &Option<String>) -> (r: AgentStatus)
    ensures
        r@ == inferred(text::opt_text(*record)),
{
    match record {
        None => AgentStatus::Failed { message: unrecorded_message(NO_RECORD) },
        Some(raw) => {
            let code = trim(raw.as_str());
            if text_eq(code.as_str(), "0") {
                AgentStatus::Finished {
                    success: true,
                    summary: "backend exited 0 without result.json".to_owned(),
                }
            } else if parse_i32(code.as_str()).is_some() {
                AgentStatus::Failed {
                    message: "backend exited with code ".to_owned().concat(code.as_str()).concat(
                        " without result.json",
                    ),
                }
            } else if starts_with(code.as_str(), "signal:") {
                AgentStatus::Failed {
                    message: "backend killed by ".to_owned().concat(code.as_str()),
                }
            } else {
                AgentStatus::Failed { message: unrecorded_message(code.as_str()) }
            }
        },
    }
}

/// Whether an exit record tells how a backend ended: an exit code, or a signal.
pub open spec fn tells_outcome(record: Option<Seq<char>>) -> bool {
    record matches Some(raw) && (text::parsed_in(
        text::trimmed(raw),
        true,
        i32::MIN as int,
        i32::MAX as int,
    ) is Some || text::opens_with(text::trimmed(raw), "signal:"@))
}

/// A backend that ended without a record that tells how is reported as failed,
/// in words that say so.
pub proof fn lemma_unrecorded_outcome_is_named(record: Option<Seq<char>>)
    requires
        !tells_outcome(record),
    ensures
        inferred(record) matches AgentStatusView::Failed { message } && text::has_text(
            message,
            "outcome unrecorded"@,
        ),
{
    reveal_strlit("0");
    reveal_strlit("backend outcome unrecorded (");
    reveal_strlit("outcome unrecorded");
    if record is Some && text::trimmed(record->0) == "0"@ {
        assert("0"@ == text::int_text(0));
        text::lemma_int_text_denotes(0);
    }
    let message = inferred(record)->Failed_message;
    assert(message.subrange(8, 26) == "outcome unrecorded"@);
    assert(text::occurs_at(message, "outcome unrecorded"@, 8));
}

/// The process id that a pid file holds.
pub open spec fn pid_in(raw: Seq<char>) -> Result<int, AdapterErrorView> {
    let s = text::trimmed(raw);
    match text::parsed_in(s, true, i32::MIN as int, i32::MAX as int) {
        Some(pid) => Ok(pid),
        None => Err(
            AdapterErrorView::Permanent(
                "corrupt pid file: "@ + text::int_problem(s, i32::MIN as int, i32::MAX as int),
            ),
        ),
    }
}

pub fn read_pid(raw: &str) -> (r: AdapterResult<i32>)
    ensures
        match (r, pid_in(raw@)) {
            (Ok(a), Ok(b)) => a == b,
            (Err(a), Err(b)) => a@ == b,
            _ => false,
        },
{
    let s = trim(raw);
    match parse_i32(s.as_str()) {
        Some(pid) => Ok(pid),
        None => Err(
            AdapterError::Permanent(
                "corrupt pid file: ".to_owned().concat(i32_problem(s.as_str()).as_str()),
            ),
        ),
    }
}

// ---------------------------------------------------------------------------
// Status

/// Where the probe of a session stands.
#[derive(Debug, PartialEq, Eq)]
pub enum Probe {
    /// Reading the question.
    Question,
    /// Reading the exit record.
    Exit,
    /// Reading the process id.
    Pid,
    /// Asking whether the process is alive.
    Alive,
    /// Reading the process id again, to know whether a record may still come.
    PidAgain,
    /// Waiting for the exit record; this many looks were in vain.
    Grace(u32),
    /// Reading the backend's own outcome, with the exit record at hand.
    Outcome(Option<String>),
    Settled,
}

#[verifier::ext_equal]
pub enum ProbeView {
    Question,
    Exit,
    Pid,
    Alive,
    PidAgain,
    Grace(int),
    Outcome(Option<Seq<char>>),
    Settled,
}

impl View for Probe {
    type V = ProbeView;

    open spec fn view(&self) -> ProbeView {
        match *self {
            Probe::Question => ProbeView::Question,
            Probe::Exit => ProbeView::Exit,
            Probe::Pid => ProbeView::Pid,
            Probe::Alive => ProbeView::Alive,
            Probe::PidAgain => ProbeView::PidAgain,
            Probe::Grace(n) => ProbeView::Grace(n as int),
            Probe::Outcome(record) => ProbeView::Outcome(text::opt_text(record)),
            Probe::Settled => ProbeView::Settled,
        }
    }
}

/// What to do next in a probe.
#[derive(Debug, PartialEq)]
pub enum ProbeAction {
    /// Read a file of the session; it may be missing.
    Read(&'static str),
    /// Wait a moment, then read the exit record.
    WaitForExit,
    /// Ask whether a process is alive.
    CheckPid(i32),
    /// Read and parse the backend's own outcome; it may be missing.
    ReadOutcome,
    Finish(AdapterResult<AgentStatus>),
}

#[verifier::ext_equal]
pub enum ProbeActionView {
    Read(Seq<char>),
    WaitForExit,
    CheckPid(int),
    ReadOutcome,
    Finish(Result<AgentStatusView, AdapterErrorView>),
}

pub open spec fn status_view(r: AdapterResult<AgentStatus>) -> Result<
    AgentStatusView,
    AdapterErrorView,
> {
    match r {
        Ok(s) => Ok(s@),
        Err(e) => Err(e@),
    }
}

impl View for ProbeAction {
    type V = ProbeActionView;

    open spec fn view(&self) -> ProbeActionView {
        match *self {
            ProbeAction::Read(name) => ProbeActionView::Read(name@),
            ProbeAction::WaitForExit => ProbeActionView::WaitForExit,
            ProbeAction::CheckPid(pid) => ProbeActionView::CheckPid(pid as int),
            ProbeAction::ReadOutcome => ProbeActionView::ReadOutcome,
            ProbeAction::Finish(r) => ProbeActionView::Finish(status_view(r)),
        }
    }
}

/// What came of the last action of a probe.
pub enum ProbeEvent {
    /// The contents of a file, `None` when it is missing.
    File(AdapterResult<Option<String>>),
    /// Whether the process is alive.
    Alive(bool),
    /// The backend's own outcome, `None` when it left none.
    Outcome(AdapterResult<Option<(bool, String)>>),
}

#[verifier::ext_equal]
pub enum ProbeEventView {
    File(Result<Option<Seq<char>>, AdapterErrorView>),
    Alive(bool),
    Outcome(Result<Option<(bool, Seq<char>)>, AdapterErrorView>),
}

impl View for ProbeEvent {
    type V = ProbeEventView;

    open spec fn view(&self) -> ProbeEventView {
        match *self {
            ProbeEvent::File(r) => ProbeEventView::File(
                match r {
                    Ok(s) => Ok(text::opt_text(s)),
                    Err(e) => Err(e@),
                },
            ),
            ProbeEvent::Alive(b) => ProbeEventView::Alive(b),
            ProbeEvent::Outcome(r) => ProbeEventView::Outcome(
                match r {
                    Ok(Some(o)) => Ok(Some((o.0, o.1@))),
                    Ok(None) => Ok(None),
                    Err(e) => Err(e@),
                },
            ),
        }
    }
}

pub open spec fn probe_failed(e: AdapterErrorView) -> (ProbeView, ProbeActionView) {
    (ProbeView::Settled, ProbeActionView::Finish(Err(e)))
}

pub open spec fn probe_done(s: AgentStatusView) -> (ProbeView, ProbeActionView) {
    (ProbeView::Settled, ProbeActionView::Finish(Ok(s)))
}

/// The probe of a session. A question always wins, even when the process has
/// exited. Without one, a recorded exit is authoritative; without a record the
/// process is probed, and one that has died gets a bounded wait for its
/// record. The backend's own outcome is preferred over the exit record.
pub open spec fn probe_next(state: ProbeView, event: ProbeEventView) -> (
    ProbeView,
    ProbeActionView,
) {
    match (state, event) {
        (ProbeView::Question, ProbeEventView::File(r)) => match r {
            Err(e) => probe_failed(e),
            Ok(Some(prompt)) => probe_done(
                AgentStatusView::WaitingInput { prompt: text::trimmed_end(prompt, text::white()) },
            ),
            Ok(None) => (ProbeView::Exit, ProbeActionView::Read(EXIT_FILE@)),
        },
        (ProbeView::Exit, ProbeEventView::File(r)) => match r {
            Err(e) => probe_failed(e),
            Ok(Some(record)) => (
                ProbeView::Outcome(Some(record)),
                ProbeActionView::ReadOutcome,
            ),
            Ok(None) => (ProbeView::Pid, ProbeActionView::Read(PID_FILE@)),
        },
        (ProbeView::Pid, ProbeEventView::File(r)) => match r {
            Err(e) => probe_failed(e),
            Ok(Some(raw)) => match pid_in(raw) {
                Err(e) => probe_failed(e),
                Ok(pid) => (ProbeView::Alive, ProbeActionView::CheckPid(pid)),
            },
            Ok(None) => (ProbeView::PidAgain, ProbeActionView::Read(PID_FILE@)),
        },
        (ProbeView::Alive, ProbeEventView::Alive(alive)) => if alive {
            probe_done(AgentStatusView::Running)
        } else {
            (ProbeView::PidAgain, ProbeActionView::Read(PID_FILE@))
        },
        (ProbeView::PidAgain, ProbeEventView::File(r)) => match r {
            Err(e) => probe_failed(e),
            Ok(Some(raw)) => match pid_in(raw) {
                Err(e) => probe_failed(e),
                Ok(_) => (ProbeView::Grace(0), ProbeActionView::WaitForExit),
            },
            Ok(None) => (ProbeView::Outcome(None), ProbeActionView::ReadOutcome),
        },
        (ProbeView::Grace(n), ProbeEventView::File(r)) => match r {
            Err(e) => probe_failed(e),
            Ok(Some(record)) => (
                ProbeView::Outcome(Some(record)),
                ProbeActionView::ReadOutcome,
            ),
            Ok(None) => if n + 1 < GRACE_POLLS {
                (ProbeView::Grace(n + 1), ProbeActionView::WaitForExit)
            } else {
                (ProbeView::Outcome(None), ProbeActionView::ReadOutcome)
            },
        },
        (ProbeView::Outcome(record), ProbeEventView::Outcome(r)) => match r {
            Err(e) => probe_failed(e),
            Ok(Some((success, summary))) => probe_done(
                AgentStatusView::Finished { success, summary },
            ),
            Ok(None) => probe_done(inferred(record)),
        },
        _ => probe_failed(AdapterErrorView::Permanent("unexpected probe event"@)),
    }
}

fn settle(r: AdapterResult<AgentStatus>) -> (out: (Probe, ProbeAction))
    ensures
        out.0@ == ProbeView::Settled,
        out.1@ == ProbeActionView::Finish(status_view(r)),
{
    (Probe::Settled, ProbeAction::Finish(r))
}

/// Starts the probe of a session.
pub fn status() -> (r: (Probe, ProbeAction))
    ensures
        r.0@ == ProbeView::Question,
        r.1@ == ProbeActionView::Read(QUESTION_FILE@),
{
    (Probe::Question, ProbeAction::Read(QUESTION_FILE))
}

/// Continues the probe of a session with what came of the last action.
pub fn status_step(state: Probe, event: ProbeEvent) -> (r: (Probe, ProbeAction))
    ensures
        (r.0@, r.1@) == probe_next(state@, event@),
{
    match (state, event) {
        (Probe::Question, ProbeEvent::File(r)) => match r {
            Err(e) => settle(Err(e)),
            Ok(Some(prompt)) => settle(
                Ok(AgentStatus::WaitingInput { prompt: trim_end(prompt.as_str()) }),
            ),
            Ok(None) => (Probe::Exit, ProbeAction::Read(EXIT_FILE)),
        },
        (Probe::Exit, ProbeEvent::File(r)) => match r {
            Err(e) => settle(Err(e)),
            Ok(Some(record)) => (Probe::Outcome(Some(record)), ProbeAction::ReadOutcome),
            Ok(None) => (Probe::Pid, ProbeAction::Read(PID_FILE)),
        },
        (Probe::Pid, ProbeEvent::File(r)) => match r {
            Err(e) => settle(Err(e)),
            Ok(Some(raw)) => match read_pid(raw.as_str()) {
                Err(e) => settle(Err(e)),
                Ok(pid) => (Probe::Alive, ProbeAction::CheckPid(pid)),
            },
            Ok(None) => (Probe::PidAgain, ProbeAction::Read(PID_FILE)),
        },
        (Probe::Alive, ProbeEvent::Alive(alive)) => if alive {
            settle(Ok(AgentStatus::Running))
        } else {
            (Probe::PidAgain, ProbeAction::Read(PID_FILE))
        },
        (Probe::PidAgain, ProbeEvent::File(r)) => match r {
            Err(e) => settle(Err(e)),
            Ok(Some(raw)) => match read_pid(raw.as_str()) {
                Err(e) => settle(Err(e)),
                Ok(_) => (Probe::Grace(0), ProbeAction::WaitForExit),
            },
            Ok(None) => (Probe::Outcome(None), ProbeAction::ReadOutcome),
        },
        (Probe::Grace(n), ProbeEvent::File(r)) => match r {
            Err(e) => settle(Err(e)),
            Ok(Some(record)) => (Probe::Outcome(Some(record)), ProbeAction::ReadOutcome),
            Ok(None) => if n < GRACE_POLLS - 1 {
                (Probe::Grace(n + 1), ProbeAction::WaitForExit)
            } else {
                (Probe::Outcome(None), ProbeAction::ReadOutcome)
            },
        },
        (Probe::Outcome(record), ProbeEvent::Outcome(r)) => match r {
            Err(e) => settle(Err(e)),
            Ok(Some((success, summary))) => settle(
                Ok(AgentStatus::Finished { success, summary }),
            ),
            Ok(None) => settle(Ok(infer_status(&record))),
        },
        _ => settle(Err(AdapterError::Permanent("unexpected probe event".to_owned()))),
    }
}

/// How many steps a probe takes at most from a state on.
pub open spec fn steps_left(state: ProbeView) -> nat {
    match state {
        ProbeView::Question => 16,
        ProbeView::Exit => 15,
        ProbeView::Pid => 14,
        ProbeView::Alive => 13,
        ProbeView::PidAgain => 12,
        ProbeView::Grace(n) => if 0 <= n <= 9 {
            (11 - n) as nat
        } else {
            2
        },
        ProbeView::Outcome(_) => 1,
        ProbeView::Settled => 0,
    }
}

/// A probe always ends: every step brings it closer to its result.
pub proof fn lemma_probe_ends(state: ProbeView, event: ProbeEventView)
    requires
        !(state is Settled),
        state matches ProbeView::Grace(n) ==> 0 <= n < GRACE_POLLS,
    ensures
        steps_left(probe_next(state, event).0) < steps_left(state),
        probe_next(state, event).0 is Settled <==> probe_next(state, event).1 is Finish,
        probe_next(state, event).0 matches ProbeView::Grace(n) ==> 0 <= n < GRACE_POLLS,
{
}

/// A question wins over everything else a session may have left.
pub proof fn lemma_question_wins(prompt: Seq<char>)
    ensures
        probe_next(ProbeView::Question, ProbeEventView::File(Ok(Some(prompt)))).1
            == ProbeActionView::Finish(
            Ok(AgentStatusView::WaitingInput { prompt: text::trimmed_end(prompt, text::white()) }),
        ),
{
}

/// The backend's own outcome is preferred over any exit record.
pub proof fn lemma_outcome_is_preferred(
    record: Option<Seq<char>>,
    success: bool,
    summary: Seq<char>,
)
    ensures
        probe_next(
            ProbeView::Outcome(record),
            ProbeEventView::Outcome(Ok(Some((success, summary)))),
        ).1 == ProbeActionView::Finish(Ok(AgentStatusView::Finished { success, summary })),
{
}

// ---------------------------------------------------------------------------
// Usage

/// What a session used: what its backend says, and nothing where it says
/// nothing.
pub fn usage(found: AdapterResult<Option<TokenUsage>>) -> (r: AdapterResult<TokenUsage>)
    ensures
        match (found, r) {
            (Ok(Some(said)), Ok(u)) => u == said,
            (Ok(None), Ok(u)) => u.input == 0 && u.output == 0,
            (Err(a), Err(b)) => a == b,
            _ => false,
        },
{
    match found {
        Ok(Some(said)) => Ok(said),
        Ok(None) => Ok(TokenUsage::default()),
        Err(e) => Err(e),
    }
}

// ---------------------------------------------------------------------------
// Cancelling

/// Where the cancellation of a session stands.
#[derive(Debug, Clone, Copy, PartialEq, Eq, Structural)]
pub enum Cancel {
    /// Nothing was sent yet.
    Checking,
    /// Asked to terminate.
    Terminating,
    /// Killed.
    Killing,
}

/// What to do next in a cancellation.
#[derive(Debug, PartialEq)]
pub enum CancelAction {
    /// Ask the process group to terminate, then watch it.
    Terminate,
    /// Kill the process group, then watch it.
    Kill,
    /// Wait a moment and look again.
    Wait,
    Finish(AdapterResult<()>),
}

/// Decides on one look at the process: a dead one is cancelled; a live one is
/// asked to terminate, killed when it does not within its time, and reported
/// when it survives even that.
pub fn cancel_step(state: Cancel, pid: i32, alive: bool, expired: bool) -> (r: (
    Cancel,
    CancelAction,
))
    ensures
        !alive ==> r.0 == state && (r.1 matches CancelAction::Finish(Ok(_))),
        alive && state is Checking ==> r.0 is Terminating && r.1 is Terminate,
        alive && !expired && !(state is Checking) ==> r.0 == state && r.1 is Wait,
        alive && expired && state is Terminating ==> r.0 is Killing && r.1 is Kill,
        alive && expired && state is Killing ==> r.0 == state && (
        r.1 matches CancelAction::Finish(Err(e)) && e@ == AdapterErrorView::Transient(
            "backend pid "@ + text::int_text(pid as int) + " survived SIGKILL (not yet reaped?)"@,
        )),
{
    if !alive {
        return (state, CancelAction::Finish(Ok(())));
    }
    match state {
        Cancel::Checking => (Cancel::Terminating, CancelAction::Terminate),
        Cancel::Terminating => if expired {
            (Cancel::Killing, CancelAction::Kill)
        } else {
            (state, CancelAction::Wait)
        },
        Cancel::Killing => if expired {
            (
                state,
                CancelAction::Finish(
                    Err(
                        AdapterError::Transient(
                            "backend pid ".to_owned().concat(i32_string(pid).as_str()).concat(
                                " survived SIGKILL (not yet reaped?)",
                            ),
                        ),
                    ),
                ),
            )
        } else {
            (state, CancelAction::Wait)
        },
    }
}

} // verus!
