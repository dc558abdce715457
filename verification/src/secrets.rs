//! Where secrets are kept.
//!
//! In the order in which [`default_chain`] asks them:
//! 1. environment variables, read-only, for headless use;
//! 2. the keychain, on macOS;
//! 3. a flat TOML file that only its owner may access.

use crate::adapters::{AdapterError, AdapterErrorView, AdapterResult, Secret, SecretStore};
use crate::paths;
use crate::paths::join_path;
use crate::table;
use crate::text;
use crate::text::{chars_of, precedes, text_eq, to_upper_chars, u64_string};
use vstd::prelude::*;
use vstd::string::*;

verus! {

// ---------------------------------------------------------------------------
// Environment

pub const ENV_PREFIX: &'static str = "YARDMASTER_SECRET_";

/// A key in the shape of a variable name: upper case, with `_` for `.` and `-`.
pub open spec fn env_chars(key: Seq<char>) -> Seq<char>
    decreases key.len(),
{
    if key.len() == 0 {
        Seq::empty()
    } else {
        let c = key.last();
        env_chars(key.drop_last()) + (if c == '.' || c == '-' {
            seq!['_']
        } else {
            text::upper_chars(c)
        })
    }
}

/// The variable that holds a secret.
pub fn env_var_name(key: &str) -> (r: String)
    ensures
        r@ == ENV_PREFIX@ + env_chars(key@),
{
    let chars = chars_of(key);
    let mut name = ENV_PREFIX.to_owned();
    assert(env_chars(key@.take(0)) == Seq::<char>::empty());
    let mut i: usize = 0;
    while i < chars.len()
        invariant
            i <= chars@.len(),
            chars@ == key@,
            name@ == ENV_PREFIX@ + env_chars(key@.take(i as int)),
        decreases chars@.len() - i,
    {
        let c = chars[i];
        assert(key@.take(i as int + 1).drop_last() == key@.take(i as int));
        assert(key@.take(i as int + 1).last() == c);
        if c == '.' || c == '-' {
            name.push('_');
        } else {
            name.append(to_upper_chars(c).as_str());
        }
        assert(name@ == ENV_PREFIX@ + env_chars(key@.take(i as int + 1)));
        i = i + 1;
    }
    assert(key@.take(i as int) == key@);
    name
}

/// What a look at an environment variable found.
pub enum EnvVar {
    Value(String),
    NotPresent,
    NotUnicode,
}

/// What the environment answers to a read of `key`, given what its variable
/// holds.
pub open spec fn env_answers(
    key: Seq<char>,
    found: EnvVar,
    r: AdapterResult<Option<Secret>>,
) -> bool {
    match (found, r) {
        (EnvVar::Value(v), Ok(Some(s))) => s@ == v@,
        (EnvVar::NotPresent, Ok(None)) => true,
        (EnvVar::NotUnicode, Err(e)) => e@ == AdapterErrorView::Permanent(
            "env var "@ + (ENV_PREFIX@ + env_chars(key)) + " is not valid unicode"@,
        ),
        _ => false,
    }
}

/// What the environment answers to a write.
pub open spec fn env_refuses(r: AdapterResult<()>) -> bool {
    r matches Err(e) && e@ == AdapterErrorView::Permanent("env store is read-only"@)
}

/// Read-only store over the environment.
pub struct EnvStore;

impl EnvStore {
    /// What the store answers for `key`, given what its variable holds.
    pub fn get(&self, key: &str, found: EnvVar) -> (r: AdapterResult<Option<Secret>>)
        ensures
            env_answers(key@, found, r),
    {
        match found {
            EnvVar::Value(v) => Ok(Some(Secret::new(v))),
            EnvVar::NotPresent => Ok(None),
            EnvVar::NotUnicode => Err(
                AdapterError::Permanent(
                    "env var ".to_owned().concat(env_var_name(key).as_str()).concat(
                        " is not valid unicode",
                    ),
                ),
            ),
        }
    }

    /// Nothing is ever written to the environment.
    pub fn set(&self) -> (r: AdapterResult<()>)
        ensures
            env_refuses(r),
    {
        Err(AdapterError::Permanent("env store is read-only".to_owned()))
    }
}

// ---------------------------------------------------------------------------
// File

/// Mode of the secrets file: its owner may read and write it, nobody else may
/// do anything.
pub const SECRETS_MODE: u32 = 0o600;

pub open spec fn pair_views(v: Seq<(String, String)>) -> Seq<(Seq<char>, Seq<char>)> {
    Seq::new(v.len(), |i: int| (v[i].0@, v[i].1@))
}

/// The entries of a flat TOML map in ascending key order, or why a text is
/// none, as `toml::from_str` reads it into an ordered map.
pub uninterp spec fn toml_entries(raw: Seq<char>) -> Result<
    Seq<(Seq<char>, Seq<char>)>,
    Seq<char>,
>;

/// A flat map as `toml::to_string` writes it.
pub uninterp spec fn toml_text(entries: Seq<(Seq<char>, Seq<char>)>) -> Seq<char>;

/// Whether a text is a flat TOML map with these entries.
pub open spec fn holds(raw: Seq<char>, entries: Seq<(Seq<char>, Seq<char>)>) -> bool {
    toml_entries(raw) matches Ok(found) && found == entries
}

/// `toml::from_str` into a `BTreeMap<String, String>`, named [`toml_entries`]:
/// the entries of the map, or the message of the error. An ordered map hands
/// its entries out in ascending key order.
#[verifier::external_body]
fn parse_entries(raw: &str) -> (r: Result<Vec<(String, String)>, String>)
    ensures
        match (r, toml_entries(raw@)) {
            (Ok(v), Ok(entries)) => pair_views(v@) == entries && table::keys_ascend(entries),
            (Err(a), Err(b)) => a@ == b,
            _ => false,
        },
{
    let map = toml::from_str::<std::collections::BTreeMap<String, String>>(raw);
    map.map(|m| m.into_iter().collect()).map_err(|e| e.to_string())
}

/// A run of 256 equal quotes.
pub open spec fn quote_run_at(s: Seq<char>, i: int) -> bool {
    &&& 0 <= i <= s.len() - 256
    &&& s[i] == '\'' || s[i] == '"'
    &&& forall|j: int| i <= j < i + 256 ==> #[trigger] s[j] == s[i]
}

/// Whether no value holds a run of 256 equal quotes. The TOML writer counts the
/// quotes of a run in a byte.
pub open spec fn writable(entries: Seq<(Seq<char>, Seq<char>)>) -> bool {
    forall|k: int, i: int| 0 <= k < entries.len() ==> !quote_run_at(entries[k].1, i)
}

/// `toml::to_string` of a `BTreeMap` from text to text, named [`toml_text`].
/// Only unsupported types make it fail, and text is none of them; reading the
/// result back gives the entries. Values with a run of 256 equal quotes are
/// left out: counting them overflows a byte, which panics where overflow is
/// checked.
#[verifier::external_body]
fn render_entries(entries: &Vec<(String, String)>) -> (r: Result<String, String>)
    requires
        table::keys_ascend(pair_views(entries@)),
        writable(pair_views(entries@)),
    ensures
        match r {
            Ok(t) => t@ == toml_text(pair_views(entries@)) && holds(t@, pair_views(entries@)),
            Err(_) => false,
        },
{
    let map: std::collections::BTreeMap<&String, &String> = entries.iter().map(
        |e| (&e.0, &e.1),
    ).collect();
    toml::to_string(&map).map_err(|e| e.to_string())
}

fn has_quote_run(chars: &Vec<char>) -> (r: bool)
    ensures
        r == exists|i: int| quote_run_at(chars@, i),
{
    let mut run: usize = 0;
    let mut n: usize = 0;
    while n < chars.len()
        invariant
            n <= chars@.len(),
            run <= n,
            run < 256,
            forall|j: int| n - run <= j < n ==> #[trigger] chars@[j] == chars@[n - run],
            run > 0 ==> chars@[n - run] == '\'' || chars@[n - run] == '"',
            run < n && n > 0 && run > 0 ==> chars@[n - run - 1] != chars@[n - run],
            run == 0 && n > 0 ==> chars@[n - 1] != '\'' && chars@[n - 1] != '"',
            forall|i: int| i + 256 <= n ==> !#[trigger] quote_run_at(chars@, i),
        decreases chars@.len() - n,
    {
        let c = chars[n];
        if c == '\'' || c == '"' {
            if run > 0 && chars[n - 1] == c {
                run = run + 1;
            } else {
                run = 1;
            }
        } else {
            run = 0;
        }
        n = n + 1;
        if run == 256 {
            assert(quote_run_at(chars@, n - 256));
            return true;
        }
        assert forall|i: int| i + 256 <= n implies !#[trigger] quote_run_at(chars@, i) by {
            if i + 256 == n && i >= 0 {
                if run == 0 {
                    assert(chars@[n - 1] == c);
                    if quote_run_at(chars@, i) {
                        assert(chars@[n - 1] == chars@[i]);
                    }
                } else {
                    if quote_run_at(chars@, i) {
                        assert(chars@[n - run - 1] == chars@[i]);
                        assert(chars@[n - run as int] == chars@[i]);
                    }
                }
            }
        }
    }
    false
}

fn is_writable(entries: &Vec<(String, String)>) -> (r: bool)
    ensures
        r == writable(pair_views(entries@)),
{
    let ghost views = pair_views(entries@);
    let mut k: usize = 0;
    while k < entries.len()
        invariant
            k <= entries@.len(),
            views == pair_views(entries@),
            forall|m: int, i: int| 0 <= m < k ==> !#[trigger] quote_run_at(views[m].1, i),
        decreases entries@.len() - k,
    {
        assert(views[k as int].1 == entries@[k as int].1@);
        if has_quote_run(&chars_of(entries[k].1.as_str())) {
            let ghost i = choose|i: int| quote_run_at(views[k as int].1, i);
            assert(quote_run_at(views[k as int].1, i));
            return false;
        }
        k = k + 1;
    }
    true
}

fn put(entries: Vec<(String, String)>, key: &str, value: &str) -> (r: Vec<(String, String)>)
    requires
        table::keys_ascend(pair_views(entries@)),
    ensures
        pair_views(r@) == table::inserted(pair_views(entries@), key@, value@),
        table::keys_ascend(pair_views(r@)),
{
    let ghost before = pair_views(entries@);
    let mut out = entries;
    let mut n: usize = 0;
    while n < out.len() && precedes(out[n].0.as_str(), key)
        invariant
            n <= out@.len(),
            before == pair_views(out@),
            forall|i: int| 0 <= i < n ==> text::text_lt((#[trigger] before[i]).0, key@),
        decreases out@.len() - n,
    {
        assert(before[n as int].0 == out@[n as int].0@);
        n = n + 1;
    }
    proof {
        if n < out@.len() {
            assert(before[n as int].0 == out@[n as int].0@);
        }
        table::lemma_rank_is(before, key@, n as int);
        table::lemma_inserted_ascends(before, key@, value@);
    }
    if n < out.len() && text_eq(out[n].0.as_str(), key) {
        out.set(n, (key.to_owned(), value.to_owned()));
        assert(pair_views(out@) == before.update(n as int, (key@, value@)));
    } else {
        out.insert(n, (key.to_owned(), value.to_owned()));
        assert(pair_views(out@) == before.insert(n as int, (key@, value@)));
    }
    out
}

fn find(entries: &Vec<(String, String)>, key: &str) -> (r: Option<String>)
    ensures
        text::opt_text(r) == table::lookup(pair_views(entries@), key@),
{
    let ghost all = pair_views(entries@);
    assert(all.skip(0) == all);
    let mut i: usize = 0;
    while i < entries.len()
        invariant
            i <= entries@.len(),
            all == pair_views(entries@),
            table::lookup(all, key@) == table::lookup(all.skip(i as int), key@),
        decreases entries@.len() - i,
    {
        assert(all.skip(i as int)[0] == (entries@[i as int].0@, entries@[i as int].1@));
        assert(all.skip(i as int).skip(1) == all.skip(i as int + 1));
        if text_eq(entries[i].0.as_str(), key) {
            return Some(entries[i].1.clone());
        }
        i = i + 1;
    }
    None
}

/// What a look at the secrets file found: its mode, or why there is none.
pub enum FileStat {
    Missing,
    Mode(u32),
    Failed(String),
}

/// A mode in three octal digits.
pub open spec fn octal_text(mode: int) -> Seq<char> {
    text::int_text(mode / 64) + text::int_text(mode / 8 % 8) + text::int_text(mode % 8)
}

/// Store over a flat TOML map in a file. Reading refuses a file that others
/// may access; writing puts the mode right.
pub struct FileStore {
    pub path: String,
}

/// What stops a write outside of the file's contents.
pub enum WriteFault {
    /// The directory of the file, and why it cannot be created.
    Directory(String, String),
    Mode(String),
    Open(String),
    Write(String),
}

/// Whether a file may be read, or what is wrong with it: `Ok(false)` where
/// there is none.
pub open spec fn admitted(path: Seq<char>, stat: FileStat) -> Result<bool, AdapterErrorView> {
    match stat {
        FileStat::Missing => Ok(false),
        FileStat::Failed(e) => Err(
            AdapterErrorView::Permanent("cannot stat secrets file "@ + path + ": "@ + e@),
        ),
        FileStat::Mode(raw) => {
            let mode = raw & 0o777;
            if mode & 0o077 != 0 {
                Err(
                    AdapterErrorView::Permanent(
                        "secrets file "@ + path + " has mode "@ + octal_text(mode as int)
                            + ", accessible to group/others; run `chmod 600 "@ + path + "`"@,
                    ),
                )
            } else {
                Ok(true)
            }
        },
    }
}

/// The entries of the file, none where there is no file.
pub open spec fn loaded(path: Seq<char>, content: Option<Result<Seq<char>, Seq<char>>>) -> Result<
    Seq<(Seq<char>, Seq<char>)>,
    AdapterErrorView,
> {
    match content {
        None => Ok(Seq::empty()),
        Some(Err(e)) => Err(
            AdapterErrorView::Permanent("cannot read secrets file "@ + path + ": "@ + e),
        ),
        Some(Ok(raw)) => match toml_entries(raw) {
            Ok(entries) => Ok(entries),
            Err(e) => Err(
                AdapterErrorView::Permanent(
                    "secrets file "@ + path + " is not a flat TOML map: "@ + e,
                ),
            ),
        },
    }
}

/// What the file answers to a read of `key`, given what is in it.
pub open spec fn file_answers(
    path: Seq<char>,
    content: Option<Result<Seq<char>, Seq<char>>>,
    key: Seq<char>,
    r: AdapterResult<Option<Secret>>,
) -> bool {
    match (r, loaded(path, content)) {
        (Ok(found), Ok(entries)) => match (found, table::lookup(entries, key)) {
            (Some(s), Some(v)) => s@ == v,
            (None, None) => true,
            _ => false,
        },
        (Err(a), Err(b)) => a@ == b,
        _ => false,
    }
}

pub open spec fn content_view(c: Option<Result<String, String>>) -> Option<
    Result<Seq<char>, Seq<char>>,
> {
    match c {
        None => None,
        Some(Ok(s)) => Some(Ok(s@)),
        Some(Err(e)) => Some(Err(e@)),
    }
}

impl FileStore {
    pub fn new(path: String) -> (r: FileStore)
        ensures
            r.path == path,
    {
        FileStore { path }
    }

    /// First step of reading the file: whether there is one to read.
    pub fn check(&self, stat: FileStat) -> (r: AdapterResult<bool>)
        ensures
            match (r, admitted(self.path@, stat)) {
                (Ok(a), Ok(b)) => a == b,
                (Err(a), Err(b)) => a@ == b,
                _ => false,
            },
    {
        let path = self.path.as_str();
        match stat {
            FileStat::Missing => Ok(false),
            FileStat::Failed(e) => Err(
                AdapterError::Permanent(
                    "cannot stat secrets file ".to_owned().concat(path).concat(": ").concat(
                        e.as_str(),
                    ),
                ),
            ),
            FileStat::Mode(raw) => {
                let mode: u32 = raw & 0o777;
                if mode & 0o077 != 0 {
                    let octal = u64_string((mode / 64) as u64).concat(
                        u64_string((mode / 8 % 8) as u64).as_str(),
                    ).concat(u64_string((mode % 8) as u64).as_str());
                    assert(octal@ == octal_text(mode as int));
                    Err(
                        AdapterError::Permanent(
                            "secrets file ".to_owned().concat(path).concat(" has mode ").concat(
                                octal.as_str(),
                            ).concat(", accessible to group/others; run `chmod 600 ").concat(
                                path,
                            ).concat("`"),
                        ),
                    )
                } else {
                    Ok(true)
                }
            },
        }
    }

    fn load(&self, content: &Option<Result<String, String>>) -> (r: AdapterResult<
        Vec<(String, String)>,
    >)
        ensures
            match (r, loaded(self.path@, content_view(*content))) {
                (Ok(v), Ok(entries)) => pair_views(v@) == entries && table::keys_ascend(entries),
                (Err(a), Err(b)) => a@ == b,
                _ => false,
            },
    {
        let path = self.path.as_str();
        match content {
            None => {
                let none: Vec<(String, String)> = Vec::new();
                assert(pair_views(none@) == Seq::<(Seq<char>, Seq<char>)>::empty());
                Ok(none)
            },
            Some(Err(e)) => Err(
                AdapterError::Permanent(
                    "cannot read secrets file ".to_owned().concat(path).concat(": ").concat(
                        e.as_str(),
                    ),
                ),
            ),
            Some(Ok(raw)) => match parse_entries(raw.as_str()) {
                Ok(entries) => Ok(entries),
                Err(e) => Err(
                    AdapterError::Permanent(
                        "secrets file ".to_owned().concat(path).concat(
                            " is not a flat TOML map: ",
                        ).concat(e.as_str()),
                    ),
                ),
            },
        }
    }

    /// The secret under `key`, given what is in the file (`None` where there is
    /// no file).
    pub fn get(&self, content: &Option<Result<String, String>>, key: &str) -> (r: AdapterResult<
        Option<Secret>,
    >)
        ensures
            file_answers(self.path@, content_view(*content), key@, r),
    {
        let entries = match self.load(content) {
            Ok(entries) => entries,
            Err(e) => return Err(e),
        };
        match find(&entries, key) {
            Some(v) => Ok(Some(Secret::new(v))),
            None => Ok(None),
        }
    }

    /// The new text of the file, with `value` under `key`. `None` where a value
    /// cannot be written.
    pub fn set(&self, content: &Option<Result<String, String>>, key: &str, value: &Secret) -> (r:
        AdapterResult<Option<String>>)
        ensures
            match (r, loaded(self.path@, content_view(*content))) {
                (Ok(text), Ok(entries)) => {
                    let updated = table::inserted(entries, key@, value@);
                    &&& text is Some <==> writable(updated)
                    &&& text matches Some(t) ==> t@ == toml_text(updated) && holds(t@, updated)
                },
                (Err(a), Err(b)) => a@ == b,
                _ => false,
            },
    {
        let entries = match self.load(content) {
            Ok(entries) => entries,
            Err(e) => return Err(e),
        };
        let updated = put(entries, key, value.expose());
        if !is_writable(&updated) {
            return Ok(None);
        }
        match render_entries(&updated) {
            Ok(rendered) => Ok(Some(rendered)),
            Err(e) => Err(
                AdapterError::Permanent(
                    "cannot serialize secrets: ".to_owned().concat(e.as_str()),
                ),
            ),
        }
    }

    /// The error of a write that failed outside of the file's contents.
    pub fn write_error(&self, fault: WriteFault) -> (r: AdapterError)
        ensures
            r@ == AdapterErrorView::Permanent(
                match fault {
                    WriteFault::Directory(dir, e) => "cannot create secrets dir "@ + dir@ + ": "@
                        + e@,
                    WriteFault::Mode(e) => "cannot chmod secrets file "@ + self.path@ + ": "@ + e@,
                    WriteFault::Open(e) => "cannot open secrets file "@ + self.path@ + ": "@ + e@,
                    WriteFault::Write(e) => "cannot write secrets file "@ + self.path@ + ": "@ + e@,
                },
            ),
    {
        let path = self.path.as_str();
        AdapterError::Permanent(
            match fault {
                WriteFault::Directory(dir, e) => "cannot create secrets dir ".to_owned().concat(
                    dir.as_str(),
                ).concat(": ").concat(e.as_str()),
                WriteFault::Mode(e) => "cannot chmod secrets file ".to_owned().concat(path).concat(
                    ": ",
                ).concat(e.as_str()),
                WriteFault::Open(e) => "cannot open secrets file ".to_owned().concat(path).concat(
                    ": ",
                ).concat(e.as_str()),
                WriteFault::Write(e) => "cannot write secrets file ".to_owned().concat(
                    path,
                ).concat(": ").concat(e.as_str()),
            },
        )
    }
}

/// What was set is what is read: after `value` was put under `key` and the text
/// written, reading the text gives `value` under `key`, and under every other
/// key what was there before.
pub proof fn lemma_set_is_read_back(
    path: Seq<char>,
    entries: Seq<(Seq<char>, Seq<char>)>,
    written: Seq<char>,
    key: Seq<char>,
    value: Seq<char>,
    other: Seq<char>,
)
    requires
        table::keys_ascend(entries),
        holds(written, table::inserted(entries, key, value)),
        other != key,
    ensures
        loaded(path, Some(Ok(written))) matches Ok(now) && table::lookup(now, key) == Some(value)
            && table::lookup(now, other) == table::lookup(entries, other),
{
    table::lemma_inserted_is_found(entries, key, value, other);
}

/// A file that anybody but its owner may access is never read.
pub proof fn lemma_shared_file_is_refused(path: Seq<char>, mode: u32)
    requires
        mode & 0o077 != 0,
    ensures
        admitted(path, FileStat::Mode(mode)) matches Err(AdapterErrorView::Permanent(_)),
{
    assert((mode & 0o777) & 0o077 == mode & 0o077) by (bit_vector);
}

/// A file with the mode that writing sets is read.
pub proof fn lemma_written_mode_is_admitted(path: Seq<char>)
    ensures
        admitted(path, FileStat::Mode(SECRETS_MODE)) == Ok::<bool, AdapterErrorView>(true),
{
    assert((0o600u32 & 0o777) & 0o077 == 0) by (bit_vector);
}

// ---------------------------------------------------------------------------
// Keychain

/// What a look into the keychain found.
pub enum KeyringRead {
    Value(String),
    NoEntry,
    /// The entry cannot be addressed, and why.
    NoAddress(String),
    Failed(String),
}

/// What became of a write to the keychain.
pub enum KeyringWrite {
    Done,
    /// The entry cannot be addressed, and why.
    NoAddress(String),
    Failed(String),
}

/// Store over the macOS keychain: an account for every key.
pub struct KeyringStore {
    pub service: String,
}

pub open spec fn no_address(key: Seq<char>, cause: Seq<char>) -> AdapterErrorView {
    AdapterErrorView::Permanent("cannot address keychain entry for "@ + key + ": "@ + cause)
}

/// What the keychain answers to a read of `key`, given what it holds.
pub open spec fn keyring_answers(
    key: Seq<char>,
    found: KeyringRead,
    r: AdapterResult<Option<Secret>>,
) -> bool {
    match (found, r) {
        (KeyringRead::Value(v), Ok(Some(s))) => s@ == v@,
        (KeyringRead::NoEntry, Ok(None)) => true,
        (KeyringRead::NoAddress(e), Err(x)) => x@ == no_address(key, e@),
        (KeyringRead::Failed(e), Err(x)) => x@ == AdapterErrorView::Permanent(
            "keychain read for "@ + key + " failed: "@ + e@,
        ),
        _ => false,
    }
}

fn unaddressed(key: &str, cause: &str) -> (r: AdapterError)
    ensures
        r@ == no_address(key@, cause@),
{
    AdapterError::Permanent(
        "cannot address keychain entry for ".to_owned().concat(key).concat(": ").concat(cause),
    )
}

impl KeyringStore {
    pub fn new() -> (r: KeyringStore)
        ensures
            r.service@ == "yardmaster"@,
    {
        KeyringStore { service: "yardmaster".to_owned() }
    }

    /// What the store answers for `key`, given what the keychain holds.
    pub fn get(&self, key: &str, found: KeyringRead) -> (r: AdapterResult<Option<Secret>>)
        ensures
            keyring_answers(key@, found, r),
    {
        match found {
            KeyringRead::Value(v) => Ok(Some(Secret::new(v))),
            KeyringRead::NoEntry => Ok(None),
            KeyringRead::NoAddress(e) => Err(unaddressed(key, e.as_str())),
            KeyringRead::Failed(e) => Err(
                AdapterError::Permanent(
                    "keychain read for ".to_owned().concat(key).concat(" failed: ").concat(
                        e.as_str(),
                    ),
                ),
            ),
        }
    }

    /// What the store answers to a write under `key`.
    pub fn set(&self, key: &str, written: KeyringWrite) -> (r: AdapterResult<()>)
        ensures
            match (written, r) {
                (KeyringWrite::Done, Ok(_)) => true,
                (KeyringWrite::NoAddress(e), Err(x)) => x@ == no_address(key@, e@),
                (KeyringWrite::Failed(e), Err(x)) => x@ == AdapterErrorView::Permanent(
                    "keychain write for "@ + key@ + " failed: "@ + e@,
                ),
                _ => false,
            },
    {
        match written {
            KeyringWrite::Done => Ok(()),
            KeyringWrite::NoAddress(e) => Err(unaddressed(key, e.as_str())),
            KeyringWrite::Failed(e) => Err(
                AdapterError::Permanent(
                    "keychain write for ".to_owned().concat(key).concat(" failed: ").concat(
                        e.as_str(),
                    ),
                ),
            ),
        }
    }
}

// ---------------------------------------------------------------------------
// Chain

/// Whether a store's answer ends the search: a secret does, and so does an
/// error, for a broken store is a misconfiguration and not a miss.
pub open spec fn ends_search(found: AdapterResult<Option<Secret>>) -> bool {
    !(found matches Ok(None))
}

/// Whether a chain of `n` stores whose first stores gave these answers asks no
/// further store: all of them were asked, or the last one ended the search.
pub open spec fn search(answers: Seq<AdapterResult<Option<Secret>>>, n: nat) -> bool {
    &&& answers.len() <= n
    &&& forall|i: int| 0 <= i < answers.len() - 1 ==> !ends_search(#[trigger] answers[i])
    &&& answers.len() < n ==> answers.len() > 0 && ends_search(answers.last())
}

/// What a search found: the last answer, nothing where no store was asked.
pub open spec fn search_result(
    answers: Seq<AdapterResult<Option<Secret>>>,
) -> AdapterResult<Option<Secret>> {
    if answers.len() == 0 {
        Ok(None)
    } else {
        answers.last()
    }
}

/// Whether the first stores may give these answers to a read of `key`.
pub open spec fn read_answers(
    stores: Seq<Box<dyn SecretStore>>,
    key: Seq<char>,
    answers: Seq<AdapterResult<Option<Secret>>>,
) -> bool {
    answers.len() <= stores.len() && forall|i: int|
        0 <= i < answers.len() ==> stores[i].may_get(key, #[trigger] answers[i])
}

/// What a chain may answer to a read of `key`: its stores are asked for this
/// key, in order, up to the first answer that ends the search.
pub open spec fn chain_may_get(
    stores: Seq<Box<dyn SecretStore>>,
    key: Seq<char>,
    r: AdapterResult<Option<Secret>>,
) -> bool {
    exists|answers: Seq<AdapterResult<Option<Secret>>>| #[trigger]
        read_answers(stores, key, answers) && search(answers, stores.len())
            && r == search_result(answers)
}

/// Whether a chain of `n` stores whose first stores gave these answers offers
/// the secret to no further store: all of them refused, or the last one
/// accepted.
pub open spec fn offer(answers: Seq<AdapterResult<()>>, n: nat) -> bool {
    &&& answers.len() <= n
    &&& forall|i: int| 0 <= i < answers.len() - 1 ==> (#[trigger] answers[i]) is Err
    &&& answers.len() < n ==> answers.len() > 0 && answers.last() is Ok
}

/// Whether a chain's result is what became of an offer: the last answer, and an
/// error of its own where no store was asked.
pub open spec fn offer_result(answers: Seq<AdapterResult<()>>, r: AdapterResult<()>) -> bool {
    if answers.len() == 0 {
        r matches Err(e) && e@ == AdapterErrorView::Permanent("secret store chain is empty"@)
    } else {
        r == answers.last()
    }
}

/// Whether the first stores may give these answers to a write of `value` under
/// `key`.
pub open spec fn write_answers(
    stores: Seq<Box<dyn SecretStore>>,
    key: Seq<char>,
    value: Seq<char>,
    answers: Seq<AdapterResult<()>>,
) -> bool {
    answers.len() <= stores.len() && forall|i: int|
        0 <= i < answers.len() ==> stores[i].may_set(key, value, #[trigger] answers[i])
}

/// What a chain may answer to a write: its stores are offered this secret under
/// this key, in order, up to the first that accepts it.
pub open spec fn chain_may_set(
    stores: Seq<Box<dyn SecretStore>>,
    key: Seq<char>,
    value: Seq<char>,
    r: AdapterResult<()>,
) -> bool {
    exists|answers: Seq<AdapterResult<()>>| #[trigger]
        write_answers(stores, key, value, answers) && offer(answers, stores.len())
            && offer_result(answers, r)
}

/// After one store's answer to a read: ask the next store, or take the answer.
pub enum ReadStep {
    Next,
    Take(AdapterResult<Option<Secret>>),
}

pub fn read_step(found: AdapterResult<Option<Secret>>) -> (r: ReadStep)
    ensures
        ends_search(found) ==> r == ReadStep::Take(found),
        !ends_search(found) ==> r is Next,
{
    match found {
        Ok(None) => ReadStep::Next,
        Ok(Some(secret)) => ReadStep::Take(Ok(Some(secret))),
        Err(e) => ReadStep::Take(Err(e)),
    }
}

/// After one store's answer to a write: offer the secret to the next store and
/// keep the refusal, or take the answer.
pub enum WriteStep {
    Next(AdapterResult<()>),
    Take(AdapterResult<()>),
}

pub fn write_step(answer: AdapterResult<()>) -> (r: WriteStep)
    ensures
        answer is Ok ==> r == WriteStep::Take(answer),
        answer is Err ==> r == WriteStep::Next(answer),
{
    if answer.is_ok() {
        WriteStep::Take(answer)
    } else {
        WriteStep::Next(answer)
    }
}

/// Stores in the order in which they are asked. Reading takes the first secret
/// found; writing goes to the first store that accepts it.
pub struct ChainStore(pub Vec<Box<dyn SecretStore>>);

impl SecretStore for ChainStore {
    open spec fn may_get(&self, key: Seq<char>, r: AdapterResult<Option<Secret>>) -> bool {
        chain_may_get(self.0@, key, r)
    }

    open spec fn may_set(&self, key: Seq<char>, value: Seq<char>, r: AdapterResult<()>) -> bool {
        chain_may_set(self.0@, key, value, r)
    }

    fn get(&self, key: &str) -> (r: AdapterResult<Option<Secret>>)
        ensures
            chain_may_get(self.0@, key@, r),
    {
        let ghost mut answers: Seq<AdapterResult<Option<Secret>>> = Seq::empty();
        let mut i: usize = 0;
        while i < self.0.len()
            invariant
                i <= self.0@.len(),
                answers.len() == i,
                forall|k: int| 0 <= k < i ==> !ends_search(#[trigger] answers[k]),
                read_answers(self.0@, key@, answers),
            decreases self.0@.len() - i,
        {
            let found = self.0[i].get(key);
            proof {
                answers = answers.push(found);
                assert(read_answers(self.0@, key@, answers));
            }
            match read_step(found) {
                ReadStep::Next => {},
                ReadStep::Take(taken) => {
                    assert(search(answers, self.0@.len()));
                    return taken;
                },
            }
            i = i + 1;
        }
        proof {
            assert(search(answers, self.0@.len()));
            if answers.len() > 0 {
                assert(!ends_search(answers[answers.len() - 1]));
            }
        }
        Ok(None)
    }

    fn set(&self, key: &str, value: Secret) -> (r: AdapterResult<()>)
        ensures
            chain_may_set(self.0@, key@, value@, r),
    {
        let ghost mut answers: Seq<AdapterResult<()>> = Seq::empty();
        let mut last: AdapterResult<()> = Err(
            AdapterError::Permanent("secret store chain is empty".to_owned()),
        );
        let mut i: usize = 0;
        while i < self.0.len()
            invariant
                i <= self.0@.len(),
                answers.len() == i,
                forall|k: int| 0 <= k < i ==> (#[trigger] answers[k]) is Err,
                write_answers(self.0@, key@, value@, answers),
                offer_result(answers, last),
            decreases self.0@.len() - i,
        {
            let answer = self.0[i].set(key, value.clone());
            proof {
                answers = answers.push(answer);
                assert(write_answers(self.0@, key@, value@, answers));
            }
            match write_step(answer) {
                WriteStep::Next(refusal) => {
                    last = refusal;
                },
                WriteStep::Take(taken) => {
                    assert(offer(answers, self.0@.len()));
                    return taken;
                },
            }
            i = i + 1;
        }
        assert(offer(answers, self.0@.len()));
        last
    }
}

/// The first store that has a secret decides, and those behind it are not
/// asked: an answer that ends the search is the result.
pub proof fn lemma_earlier_store_wins(
    answers: Seq<AdapterResult<Option<Secret>>>,
    n: nat,
    i: int,
)
    requires
        search(answers, n),
        0 <= i < answers.len(),
        ends_search(answers[i]),
    ensures
        i == answers.len() - 1,
        search_result(answers) == answers[i],
{
}

/// A kind of store, and where it is.
#[derive(Debug, PartialEq, Eq)]
pub enum StoreKind {
    Env,
    Keyring,
    File(String),
}

#[verifier::ext_equal]
pub enum StoreKindView {
    Env,
    Keyring,
    File(Seq<char>),
}

impl View for StoreKind {
    type V = StoreKindView;

    open spec fn view(&self) -> StoreKindView {
        match *self {
            StoreKind::Env => StoreKindView::Env,
            StoreKind::Keyring => StoreKindView::Keyring,
            StoreKind::File(path) => StoreKindView::File(path@),
        }
    }
}

pub open spec fn kind_views(v: Seq<StoreKind>) -> Seq<StoreKindView> {
    Seq::new(v.len(), |i: int| v[i]@)
}

/// The stores of the default chain: the environment, the keychain where there
/// is one, and `secrets.toml` in the state directory.
pub open spec fn default_stores(state_dir: Seq<char>, keyring: bool) -> Seq<StoreKindView> {
    let file = StoreKindView::File(paths::joined_path(state_dir, "secrets.toml"@));
    if keyring {
        seq![StoreKindView::Env, StoreKindView::Keyring, file]
    } else {
        seq![StoreKindView::Env, file]
    }
}

pub fn default_chain(state_dir: &str, keyring: bool) -> (r: Vec<StoreKind>)
    ensures
        kind_views(r@) == default_stores(state_dir@, keyring),
{
    let file = StoreKind::File(join_path(state_dir, "secrets.toml"));
    let out: Vec<StoreKind> = if keyring {
        vec![StoreKind::Env, StoreKind::Keyring, file]
    } else {
        vec![StoreKind::Env, file]
    };
    assert(kind_views(out@) == default_stores(state_dir@, keyring));
    out
}

/// What the file answers to a read of `key`, given its mode and its content: a
/// file that others may read is refused, and one that is not there holds
/// nothing.
pub open spec fn checked_file_answers(
    path: Seq<char>,
    stat: FileStat,
    raw: Result<Seq<char>, Seq<char>>,
    key: Seq<char>,
    r: AdapterResult<Option<Secret>>,
) -> bool {
    match admitted(path, stat) {
        Err(e) => r matches Err(x) && x@ == e,
        Ok(there) => file_answers(
            path,
            if there {
                Some(raw)
            } else {
                None
            },
            key,
            r,
        ),
    }
}

/// What a store of a kind answers to a read of `key`, given what the variable,
/// the keychain and the file hold.
pub open spec fn kind_answers(
    kind: StoreKindView,
    key: Seq<char>,
    variable: EnvVar,
    keychain: KeyringRead,
    stat: FileStat,
    raw: Result<Seq<char>, Seq<char>>,
    r: AdapterResult<Option<Secret>>,
) -> bool {
    match kind {
        StoreKindView::Env => env_answers(key, variable, r),
        StoreKindView::Keyring => keyring_answers(key, keychain, r),
        StoreKindView::File(path) => checked_file_answers(path, stat, raw, key, r),
    }
}

/// Whether these stores are of these kinds, as far as reads of `key` go.
pub open spec fn stores_answer(
    stores: Seq<Box<dyn SecretStore>>,
    kinds: Seq<StoreKindView>,
    key: Seq<char>,
    variable: EnvVar,
    keychain: KeyringRead,
    stat: FileStat,
    raw: Result<Seq<char>, Seq<char>>,
) -> bool {
    &&& stores.len() == kinds.len()
    &&& forall|i: int, r: AdapterResult<Option<Secret>>|
        0 <= i < stores.len() && #[trigger] stores[i].may_get(key, r) ==> kind_answers(
            kinds[i],
            key,
            variable,
            keychain,
            stat,
            raw,
            r,
        )
}

/// The default chain reads a secret from its variable; where that is not set,
/// from the keychain if there is one; and where that has no entry, from
/// `secrets.toml` in the state directory.
pub proof fn lemma_default_chain_reads(
    stores: Seq<Box<dyn SecretStore>>,
    state_dir: Seq<char>,
    keyring: bool,
    key: Seq<char>,
    variable: EnvVar,
    keychain: KeyringRead,
    stat: FileStat,
    raw: Result<Seq<char>, Seq<char>>,
    r: AdapterResult<Option<Secret>>,
)
    requires
        stores_answer(
            stores,
            default_stores(state_dir, keyring),
            key,
            variable,
            keychain,
            stat,
            raw,
        ),
        chain_may_get(stores, key, r),
    ensures
        if !(variable is NotPresent) {
            env_answers(key, variable, r)
        } else if keyring && !(keychain is NoEntry) {
            keyring_answers(key, keychain, r)
        } else {
            checked_file_answers(
                paths::joined_path(state_dir, "secrets.toml"@),
                stat,
                raw,
                key,
                r,
            )
        },
{
    let answers = choose|answers: Seq<AdapterResult<Option<Secret>>>| #[trigger]
        read_answers(stores, key, answers) && search(answers, stores.len()) && r == search_result(
            answers,
        );
    let kinds = default_stores(state_dir, keyring);
    assert forall|i: int| 0 <= i < answers.len() implies kind_answers(
        kinds[i],
        key,
        variable,
        keychain,
        stat,
        raw,
        #[trigger] answers[i],
    ) by {
        assert(stores[i].may_get(key, answers[i]));
    }
    assert(answers.len() > 0);
    assert(env_answers(key, variable, answers[0]));
    if answers.len() > 1 {
        assert(!ends_search(answers[0]));
        if answers.len() > 2 {
            assert(!ends_search(answers[1]));
        }
    }
}

/// The default chain writes nothing to the environment: what becomes of a write
/// is what the keychain accepts, where there is one, or else what the file
/// answers.
pub proof fn lemma_default_chain_writes(
    stores: Seq<Box<dyn SecretStore>>,
    keyring: bool,
    key: Seq<char>,
    value: Seq<char>,
    r: AdapterResult<()>,
)
    requires
        stores.len() == if keyring {
            3int
        } else {
            2
        },
        forall|a: AdapterResult<()>| #[trigger]
            stores[0].may_set(key, value, a) ==> env_refuses(a),
        chain_may_set(stores, key, value, r),
    ensures
        !keyring ==> stores[1].may_set(key, value, r),
        keyring ==> (r is Ok && stores[1].may_set(key, value, r)) || stores[2].may_set(
            key,
            value,
            r,
        ),
{
    let answers = choose|answers: Seq<AdapterResult<()>>| #[trigger]
        write_answers(stores, key, value, answers) && offer(answers, stores.len())
            && offer_result(answers, r);
    assert forall|i: int| 0 <= i < answers.len() implies stores[i].may_set(
        key,
        value,
        #[trigger] answers[i],
    ) by {}
    assert(answers.len() > 0);
    assert(stores[0].may_set(key, value, answers[0]));
    if answers.len() > 1 {
        assert(stores[1].may_set(key, value, answers[1]));
    }
    if answers.len() > 2 {
        assert(stores[2].may_set(key, value, answers[2]));
    }
}

} // verus!
