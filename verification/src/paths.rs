//! Filesystem locations of configuration and state, and the path arithmetic
//! they rest on. Paths are Unix paths, as text.
//!
//! Config lies under `~/.config/yardmaster`, mutable state under
//! `~/.local/state/yardmaster`; environment variables override both. The
//! functions take the values of those variables as arguments.

use crate::text;
use crate::text::{chars_of, opens_with_char, string_between, strip_prefix, text_eq, trim_start_char};
use vstd::prelude::*;
use vstd::string::*;

verus! {

/// Overrides the config file location when set.
pub const CONFIG_ENV: &'static str = "YARDMASTER_CONFIG";

/// Overrides the state directory location when set.
pub const STATE_DIR_ENV: &'static str = "YARDMASTER_STATE_DIR";

// ---------------------------------------------------------------------------
// Path arithmetic

/// `child` below `base`; an absolute `child` stands for itself.
pub open spec fn joined_path(base: Seq<char>, child: Seq<char>) -> Seq<char> {
    if child.len() > 0 && child[0] == '/' {
        child
    } else if base.len() == 0 || base.last() == '/' {
        base + child
    } else {
        base.push('/') + child
    }
}

pub fn join_path(base: &str, child: &str) -> (r: String)
    ensures
        r@ == joined_path(base@, child@),
{
    if opens_with_char(child, '/') {
        return child.to_owned();
    }
    let chars = chars_of(base);
    let n: usize = chars.len();
    let mut out = base.to_owned();
    if n > 0 && chars[n - 1] != '/' {
        out.push('/');
    }
    out.append(child);
    out
}

/// Length of what is no name at the head of a path: the root, or a leading
/// `.` component.
pub open spec fn head_len(p: Seq<char>) -> nat {
    if p.len() > 0 && (p[0] == '/' || (p[0] == '.' && (p.len() == 1 || p[1] == '/'))) {
        1
    } else {
        0
    }
}

/// A path without trailing separators and `.` components.
pub open spec fn bare_path(p: Seq<char>) -> Seq<char>
    decreases p.len(),
{
    let n = p.len() as int;
    if n <= head_len(p) {
        p
    } else if p[n - 1] == '/' {
        bare_path(p.drop_last())
    } else if p[n - 1] == '.' && n >= 2 && p[n - 2] == '/' {
        bare_path(p.drop_last())
    } else {
        p
    }
}

/// Where the last component of a path starts.
pub open spec fn name_start(p: Seq<char>) -> nat
    decreases p.len(),
{
    if p.len() == 0 || p.last() == '/' {
        p.len()
    } else {
        name_start(p.drop_last())
    }
}

/// The last component of a path, when it is a name: neither the root nor `.`
/// nor `..`.
pub open spec fn file_name_of(p: Seq<char>) -> Option<Seq<char>> {
    let t = bare_path(p);
    if t.len() <= head_len(t) {
        None
    } else {
        let name = t.skip(name_start(t) as int);
        if name == ".."@ {
            None
        } else {
            Some(name)
        }
    }
}

/// The path of the directory that holds the last component.
pub open spec fn parent_of(p: Seq<char>) -> Seq<char> {
    let t = bare_path(p);
    bare_path(t.take(name_start(t) as int))
}

/// The path with its last component replaced, or extended where it has none.
pub open spec fn renamed(p: Seq<char>, name: Seq<char>) -> Seq<char> {
    match file_name_of(p) {
        Some(_) => joined_path(parent_of(p), name),
        None => joined_path(p, name),
    }
}

fn head(chars: &Vec<char>, n: usize) -> (r: usize)
    requires
        n <= chars@.len(),
    ensures
        r == head_len(chars@.take(n as int)),
{
    if n > 0 && (chars[0] == '/' || (chars[0] == '.' && (n == 1 || chars[1] == '/'))) {
        1
    } else {
        0
    }
}

/// Length of a path prefix without its trailing separators and `.` components.
fn bare_len(chars: &Vec<char>, upto: usize) -> (r: usize)
    requires
        upto <= chars@.len(),
    ensures
        r <= upto,
        chars@.take(r as int) == bare_path(chars@.take(upto as int)),
{
    let mut n: usize = upto;
    loop
        invariant
            n <= upto <= chars@.len(),
            bare_path(chars@.take(n as int)) == bare_path(chars@.take(upto as int)),
        ensures
            n <= upto,
            chars@.take(n as int) == bare_path(chars@.take(upto as int)),
        decreases n,
    {
        let ghost p = chars@.take(n as int);
        if n <= head(chars, n) {
            break;
        }
        assert(p.drop_last() == chars@.take(n - 1));
        if chars[n - 1] == '/' {
            n = n - 1;
        } else if chars[n - 1] == '.' && n >= 2 && chars[n - 2] == '/' {
            n = n - 1;
        } else {
            break;
        }
    }
    n
}

fn last_start(chars: &Vec<char>, n: usize) -> (r: usize)
    requires
        n <= chars@.len(),
    ensures
        r == name_start(chars@.take(n as int)),
        r <= n,
{
    let mut i: usize = n;
    while i > 0 && chars[i - 1] != '/'
        invariant
            i <= n <= chars@.len(),
            name_start(chars@.take(i as int)) == name_start(chars@.take(n as int)),
        decreases i,
    {
        assert(chars@.take(i as int).drop_last() == chars@.take(i - 1));
        i = i - 1;
    }
    i
}

/// The last component of a path, when it is a name.
pub fn file_name(path: &str) -> (r: Option<String>)
    ensures
        text::opt_text(r) == file_name_of(path@),
{
    let chars = chars_of(path);
    assert(chars@.take(chars@.len() as int) == path@);
    let n = bare_len(&chars, chars.len());
    if n <= head(&chars, n) {
        return None;
    }
    let start = last_start(&chars, n);
    let name = string_between(&chars, start, n);
    assert(name@ == chars@.take(n as int).skip(start as int));
    if text_eq(name.as_str(), "..") {
        None
    } else {
        Some(name)
    }
}

/// The path with its last component replaced, or extended where it has none.
pub fn with_file_name(path: &str, name: &str) -> (r: String)
    ensures
        r@ == renamed(path@, name@),
{
    match file_name(path) {
        None => join_path(path, name),
        Some(_) => {
            let chars = chars_of(path);
            assert(chars@.take(chars@.len() as int) == path@);
            let n = bare_len(&chars, chars.len());
            let start = last_start(&chars, n);
            let end = bare_len(&chars, start);
            assert(chars@.take(n as int).take(start as int) == chars@.take(start as int));
            let parent = string_between(&chars, 0, end);
            assert(parent@ == chars@.take(end as int));
            join_path(parent.as_str(), name)
        },
    }
}

// ---------------------------------------------------------------------------
// Locations

/// The home directory: `$HOME`, or the current directory when it is unset or
/// empty.
pub open spec fn home_of(home: Option<Seq<char>>) -> Seq<char> {
    match home {
        Some(h) => if h.len() > 0 {
            h
        } else {
            "."@
        },
        None => "."@,
    }
}

pub fn home_dir(home: &Option<String>) -> (r: String)
    ensures
        r@ == home_of(text::opt_text(*home)),
{
    match home {
        Some(h) => if chars_of(h.as_str()).len() > 0 {
            h.clone()
        } else {
            ".".to_owned()
        },
        None => ".".to_owned(),
    }
}

/// Path of the config file: the override where it is set and not empty, else
/// `~/.config/yardmaster/config.toml`.
pub open spec fn config_location(
    overridden: Option<Seq<char>>,
    home: Option<Seq<char>>,
) -> Seq<char> {
    match overridden {
        Some(p) if p.len() > 0 => p,
        _ => joined_path(
            joined_path(joined_path(home_of(home), ".config"@), "yardmaster"@),
            "config.toml"@,
        ),
    }
}

pub fn config_path(overridden: &Option<String>, home: &Option<String>) -> (r: String)
    ensures
        r@ == config_location(text::opt_text(*overridden), text::opt_text(*home)),
{
    if let Some(p) = overridden {
        if chars_of(p.as_str()).len() > 0 {
            return p.clone();
        }
    }
    let base = join_path(home_dir(home).as_str(), ".config");
    join_path(join_path(base.as_str(), "yardmaster").as_str(), "config.toml")
}

/// Directory of all mutable state: the override where it is set and not empty,
/// else `~/.local/state/yardmaster`.
pub open spec fn state_location(
    overridden: Option<Seq<char>>,
    home: Option<Seq<char>>,
) -> Seq<char> {
    match overridden {
        Some(p) if p.len() > 0 => p,
        _ => joined_path(
            joined_path(joined_path(home_of(home), ".local"@), "state"@),
            "yardmaster"@,
        ),
    }
}

pub fn state_dir(overridden: &Option<String>, home: &Option<String>) -> (r: String)
    ensures
        r@ == state_location(text::opt_text(*overridden), text::opt_text(*home)),
{
    if let Some(p) = overridden {
        if chars_of(p.as_str()).len() > 0 {
            return p.clone();
        }
    }
    let base = join_path(home_dir(home).as_str(), ".local");
    join_path(join_path(base.as_str(), "state").as_str(), "yardmaster")
}

/// Database inside a state directory.
pub fn db_path(state_dir: &str) -> (r: String)
    ensures
        r@ == joined_path(state_dir@, "yardmaster.db"@),
{
    join_path(state_dir, "yardmaster.db")
}

/// Daemon socket inside a state directory.
pub fn socket_path(state_dir: &str) -> (r: String)
    ensures
        r@ == joined_path(state_dir@, "daemon.sock"@),
{
    join_path(state_dir, "daemon.sock")
}

/// Single-instance lock file inside a state directory.
pub fn lock_path(state_dir: &str) -> (r: String)
    ensures
        r@ == joined_path(state_dir@, "daemon.lock"@),
{
    join_path(state_dir, "daemon.lock")
}

/// A leading `~` or `~/` stands for the home directory; any other path, `~user`
/// forms among them, stands for itself.
pub open spec fn expanded(path: Seq<char>, home: Option<Seq<char>>) -> Seq<char> {
    if path == "~"@ {
        home_of(home)
    } else {
        match text::after_prefix(path, "~/"@) {
            Some(rest) => joined_path(home_of(home), text::trimmed_start(rest, text::only('/'))),
            None => path,
        }
    }
}

pub fn expand_tilde(path: &str, home: &Option<String>) -> (r: String)
    ensures
        r@ == expanded(path@, text::opt_text(*home)),
{
    if text_eq(path, "~") {
        return home_dir(home);
    }
    match strip_prefix(path, "~/") {
        Some(rest) => join_path(
            home_dir(home).as_str(),
            trim_start_char(rest.as_str(), '/').as_str(),
        ),
        None => path.to_owned(),
    }
}

/// What stands behind a `~/` stays below the home directory, however many
/// slashes open it.
pub proof fn lemma_expanded_below_home(path: Seq<char>, home: Option<Seq<char>>)
    requires
        text::after_prefix(path, "~/"@) is Some,
    ensures
        home_of(home).is_prefix_of(expanded(path, home)),
{
    reveal_strlit("~/");
    reveal_strlit("~");
    let rest = text::after_prefix(path, "~/"@)->Some_0;
    text::lemma_trimmed_start(rest, text::only('/'));
}

} // verus!
