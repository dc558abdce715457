//! Where secrets are looked for, and who may see them.

use crate::adapters::{AdapterErrorView, AdapterResult, Secret};
use crate::secrets;
use crate::secrets::{EnvVar, FileStat, KeyringRead, StoreKindView};
use crate::table;
use crate::text;
use vstd::prelude::*;
use vstd::string::*;

verus! {

// ---------------------------------------------------------------------------
// Environment

/// The variable of a key is the key in capitals, with an underscore for every
/// dot and dash.
pub proof fn lemma_variable_names(key: Seq<char>)
    requires
        forall|i: int| 0 <= i < key.len() ==> #[trigger] key[i] <= '\u{7f}',
    ensures
        secrets::env_chars(key).len() == key.len(),
        forall|i: int|
            0 <= i < key.len() && (key[i] == '.' || key[i] == '-') ==> #[trigger] secrets::env_chars(
                key,
            )[i] == '_',
        forall|i: int|
            0 <= i < key.len() && 'a' <= key[i] <= 'z' ==> (#[trigger] secrets::env_chars(
                key,
            )[i]) as int == key[i] as int - 32,
        forall|i: int|
            0 <= i < key.len() && (('A' <= key[i] <= 'Z') || ('0' <= key[i] <= '9') || key[i]
                == '_') ==> #[trigger] secrets::env_chars(key)[i] == key[i],
    decreases key.len(),
{
    if key.len() > 0 {
        let init = key.drop_last();
        assert(forall|i: int| 0 <= i < init.len() ==> #[trigger] init[i] == key[i]);
        lemma_variable_names(init);
        assert(key[key.len() - 1] == key.last());
        let c = key.last();
        let last = if c == '.' || c == '-' {
            seq!['_']
        } else {
            text::upper_chars(c)
        };
        assert(c <= '\u{7f}');
        assert(last.len() == 1);
        let all = secrets::env_chars(key);
        assert(all == secrets::env_chars(init) + last);
        assert(forall|i: int|
            0 <= i < init.len() ==> #[trigger] all[i] == secrets::env_chars(init)[i]);
        assert(all[key.len() - 1] == last[0]);
    }
}

/// A variable that is set gives its value, one that is not gives nothing, and
/// one that is no text is an error for good.
pub proof fn lemma_environment(
    key: Seq<char>,
    value: String,
    r: AdapterResult<Option<Secret>>,
)
    ensures
        secrets::env_answers(key, EnvVar::Value(value), r) <==> (r matches Ok(Some(s)) && s@
            == value@),
        secrets::env_answers(key, EnvVar::NotPresent, r) <==> r matches Ok(None),
        secrets::env_answers(key, EnvVar::NotUnicode, r) ==> (r matches Err(e) && e@ is Permanent),
{
}

// ---------------------------------------------------------------------------
// File

/// A secret that is in the file is found, one that is not is not, and a file
/// that is not there has none.
pub proof fn lemma_file_lookup(
    path: Seq<char>,
    raw: Seq<char>,
    entries: Seq<(Seq<char>, Seq<char>)>,
    i: int,
    key: Seq<char>,
    r: AdapterResult<Option<Secret>>,
)
    requires
        secrets::holds(raw, entries),
        table::keys_ascend(entries),
    ensures
        0 <= i < entries.len() && entries[i].0 == key && secrets::file_answers(
            path,
            Some(Ok(raw)),
            key,
            r,
        ) ==> (r matches Ok(Some(s)) && s@ == entries[i].1),
        (forall|k: int| 0 <= k < entries.len() ==> (#[trigger] entries[k]).0 != key)
            && secrets::file_answers(path, Some(Ok(raw)), key, r) ==> r matches Ok(None),
        secrets::file_answers(path, None, key, r) ==> r matches Ok(None),
{
    if 0 <= i < entries.len() && entries[i].0 == key {
        table::lemma_entry_is_found(entries, i);
    }
    table::lemma_lookup(entries, key);
    assert(table::lookup(Seq::<(Seq<char>, Seq<char>)>::empty(), key) is None);
}

/// A file that cannot be read or is no table of secrets is an error that names
/// it.
pub proof fn lemma_file_faults(
    path: Seq<char>,
    cause: Seq<char>,
    raw: Seq<char>,
    key: Seq<char>,
    r: AdapterResult<Option<Secret>>,
)
    ensures
        secrets::file_answers(path, Some(Err(cause)), key, r) ==> (r matches Err(e) && (
        e@ matches AdapterErrorView::Permanent(why) && text::has_text(why, path))),
        secrets::toml_entries(raw) is Err && secrets::file_answers(path, Some(Ok(raw)), key, r)
            ==> (r matches Err(e) && (e@ matches AdapterErrorView::Permanent(why)
            && text::has_text(why, path))),
{
    text::lemma_has_middle("cannot read secrets file "@, path, ": "@ + cause);
    assert("cannot read secrets file "@ + path + (": "@ + cause) == "cannot read secrets file "@
        + path + ": "@ + cause);
    if let Err(e) = secrets::toml_entries(raw) {
        let tail = " is not a flat TOML map: "@ + e;
        text::lemma_has_middle("secrets file "@, path, tail);
        assert("secrets file "@ + path + tail == "secrets file "@ + path
            + " is not a flat TOML map: "@ + e);
    }
}

/// A file is used exactly where no one but its owner may access it.
pub proof fn lemma_only_private_files_are_used(path: Seq<char>, mode: u32)
    ensures
        mode & 0o077 == 0 ==> secrets::admitted(path, FileStat::Mode(mode)) == Ok::<
            bool,
            AdapterErrorView,
        >(true),
        mode & 0o077 != 0 ==> secrets::admitted(path, FileStat::Mode(mode)) is Err,
        secrets::admitted(path, FileStat::Missing) == Ok::<bool, AdapterErrorView>(false),
{
    assert((mode & 0o777) & 0o077 == mode & 0o077) by (bit_vector);
}

/// A file that others may access is refused with its path and its mode.
pub proof fn lemma_refused_file_is_named(path: Seq<char>, mode: u32)
    requires
        mode & 0o077 != 0,
    ensures
        secrets::admitted(path, FileStat::Mode(mode)) matches Err(AdapterErrorView::Permanent(why))
            && text::has_text(why, path) && text::has_text(
            why,
            secrets::octal_text((mode & 0o777) as int),
        ),
{
    assert((mode & 0o777) & 0o077 == mode & 0o077) by (bit_vector);
    let shown = secrets::octal_text((mode & 0o777) as int);
    let advice = ", accessible to group/others; run `chmod 600 "@;
    let tail = " has mode "@ + shown + advice + path + "`"@;
    let why = "secrets file "@ + path + " has mode "@ + shown + advice + path + "`"@;
    text::lemma_has_middle("secrets file "@, path, tail);
    assert("secrets file "@ + path + tail == why);
    text::lemma_has_middle("secrets file "@ + path + " has mode "@, shown, advice + path + "`"@);
    assert("secrets file "@ + path + " has mode "@ + shown + (advice + path + "`"@) == why);
}

/// A mode is shown by its three octal digits.
pub proof fn lemma_octal(mode: int)
    requires
        0 <= mode < 512,
    ensures
        secrets::octal_text(mode) == text::int_text(mode / 64) + text::int_text(mode / 8 % 8)
            + text::int_text(mode % 8),
        0 <= mode / 64 < 8,
        mode == 64 * (mode / 64) + 8 * (mode / 8 % 8) + mode % 8,
{
}

// ---------------------------------------------------------------------------
// Keychain

/// A keychain entry gives its value, a missing one nothing, and a fault is an
/// error that names the key.
pub proof fn lemma_keychain(
    key: Seq<char>,
    text_found: String,
    r: AdapterResult<Option<Secret>>,
)
    ensures
        secrets::keyring_answers(key, KeyringRead::Value(text_found), r) <==> (r matches Ok(Some(s))
            && s@ == text_found@),
        secrets::keyring_answers(key, KeyringRead::NoEntry, r) <==> r matches Ok(None),
        secrets::keyring_answers(key, KeyringRead::Failed(text_found), r) ==> (r matches Err(e) && (
        e@ matches AdapterErrorView::Permanent(why) && text::has_text(why, key))),
        secrets::keyring_answers(key, KeyringRead::NoAddress(text_found), r) ==> (r matches Err(e)
            && (e@ matches AdapterErrorView::Permanent(why) && text::has_text(why, key))),
{
    let cause = text_found@;
    text::lemma_has_middle("keychain read for "@, key, " failed: "@ + cause);
    assert("keychain read for "@ + key + (" failed: "@ + cause) == "keychain read for "@ + key
        + " failed: "@ + cause);
    text::lemma_has_middle("cannot address keychain entry for "@, key, ": "@ + cause);
    assert("cannot address keychain entry for "@ + key + (": "@ + cause)
        == "cannot address keychain entry for "@ + key + ": "@ + cause);
}

// ---------------------------------------------------------------------------
// Chain

/// The environment is asked first, the file in the state directory last, and the
/// keychain between them where there is one.
pub proof fn lemma_default_order(state_dir: Seq<char>, keyring: bool)
    requires
        state_dir.len() > 0,
        state_dir.last() != '/',
    ensures
        ({
            let stores = secrets::default_stores(state_dir, keyring);
            &&& stores[0] is Env
            &&& stores.last() == StoreKindView::File(state_dir + "/secrets.toml"@)
            &&& keyring ==> stores.len() == 3 && stores[1] is Keyring
            &&& !keyring ==> stores.len() == 2
        }),
{
    reveal_strlit("secrets.toml");
    reveal_strlit("/secrets.toml");
    assert("secrets.toml"@[0] == 's');
    assert(state_dir.push('/') + "secrets.toml"@ == state_dir + "/secrets.toml"@);
}

/// An answer of a chain is that of the first store that has one; the stores
/// behind it are not asked. Where none has one, there is none.
pub proof fn lemma_first_answer_counts(answers: Seq<AdapterResult<Option<Secret>>>, n: nat)
    requires
        secrets::search(answers, n),
    ensures
        forall|i: int| 0 <= i < answers.len() - 1 ==> #[trigger] answers[i] matches Ok(None),
        answers.len() > 0 ==> secrets::search_result(answers) == answers.last(),
        answers.len() < n ==> !(secrets::search_result(answers) matches Ok(None)),
        answers.len() == 0 ==> n == 0 && (secrets::search_result(answers) matches Ok(None)),
{
    assert forall|i: int| 0 <= i < answers.len() - 1 implies #[trigger] answers[i] matches Ok(
        None,
    ) by {
        assert(!secrets::ends_search(answers[i]));
    }
}

/// A secret is kept by the first store that takes it; the stores before it all
/// refused.
pub proof fn lemma_first_taker_keeps(answers: Seq<AdapterResult<()>>, n: nat, r: AdapterResult<()>)
    requires
        secrets::offer(answers, n),
        secrets::offer_result(answers, r),
    ensures
        r is Ok ==> answers.len() > 0 && answers.last() is Ok && forall|i: int|
            0 <= i < answers.len() - 1 ==> (#[trigger] answers[i]) is Err,
        r is Err ==> answers.len() == n && forall|i: int|
            0 <= i < answers.len() ==> (#[trigger] answers[i]) is Err,
{
}

/// The environment takes no secrets, and neither does a chain without stores;
/// both say so.
pub proof fn lemma_refused_writes(r: AdapterResult<()>)
    ensures
        secrets::env_refuses(r) ==> (r matches Err(e) && e@ == AdapterErrorView::Permanent(
            "env store is read-only"@,
        )),
        secrets::offer_result(Seq::empty(), r) ==> (r matches Err(e) && e@
            == AdapterErrorView::Permanent("secret store chain is empty"@)),
{
}

} // verus!
