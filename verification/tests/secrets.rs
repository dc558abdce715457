use std::collections::BTreeMap;
use std::sync::Mutex;
use yardmaster::adapters::{AdapterError, AdapterResult, Secret, SecretStore};
use yardmaster::secrets::{
    default_chain, env_var_name, ChainStore, EnvStore, EnvVar, FileStat, FileStore, KeyringRead,
    KeyringStore, KeyringWrite, ReadStep, StoreKind, WriteFault, WriteStep, SECRETS_MODE,
    read_step, write_step,
};

/// An environment.
struct Env(Mutex<BTreeMap<String, String>>);

impl SecretStore for &'static Env {
    fn get(&self, key: &str) -> AdapterResult<Option<Secret>> {
        let found = match self.0.lock().expect("lock").get(&env_var_name(key)) {
            Some(v) => EnvVar::Value(v.clone()),
            None => EnvVar::NotPresent,
        };
        EnvStore.get(key, found)
    }

    fn set(&self, _key: &str, _value: Secret) -> AdapterResult<()> {
        EnvStore.set()
    }
}

/// A file and its mode.
struct Disk {
    store: FileStore,
    file: Mutex<Option<(String, u32)>>,
}

impl Disk {
    fn new() -> Disk {
        Disk {
            store: FileStore::new("/state/secrets.toml".to_owned()),
            file: Mutex::new(None),
        }
    }

    fn content(&self) -> AdapterResult<Option<Result<String, String>>> {
        let file = self.file.lock().expect("lock");
        let stat = match &*file {
            None => FileStat::Missing,
            Some((_, mode)) => FileStat::Mode(*mode),
        };
        Ok(if self.store.check(stat)? {
            file.as_ref().map(|(text, _)| Ok(text.clone()))
        } else {
            None
        })
    }

    fn chmod(&self, mode: u32) {
        if let Some(file) = self.file.lock().expect("lock").as_mut() {
            file.1 = mode;
        }
    }

    fn mode(&self) -> u32 {
        self.file.lock().expect("lock").as_ref().expect("file").1
    }
}

impl SecretStore for Disk {
    fn get(&self, key: &str) -> AdapterResult<Option<Secret>> {
        self.store.get(&self.content()?, key)
    }

    fn set(&self, key: &str, value: Secret) -> AdapterResult<()> {
        self.chmod(SECRETS_MODE);
        let text = self
            .store
            .set(&self.content()?, key, &value)?
            .expect("writable");
        *self.file.lock().expect("lock") = Some((text, SECRETS_MODE));
        Ok(())
    }
}

#[test]
fn env_maps_dots_and_dashes_and_is_read_only() {
    assert_eq!(
        env_var_name("providers.jira-acme"),
        "YARDMASTER_SECRET_PROVIDERS_JIRA_ACME"
    );
    let got = EnvStore
        .get("providers.jira-acme", EnvVar::Value("tok-1".to_owned()))
        .expect("get");
    assert_eq!(got.expect("some").expose(), "tok-1");
    assert!(EnvStore
        .get("providers.absent", EnvVar::NotPresent)
        .expect("get")
        .is_none());
    assert!(matches!(EnvStore.set(), Err(AdapterError::Permanent(_))));
    match EnvStore.get("a.b", EnvVar::NotUnicode) {
        Err(e) => assert_eq!(
            e,
            AdapterError::Permanent(
                "env var YARDMASTER_SECRET_A_B is not valid unicode".to_owned()
            )
        ),
        Ok(_) => panic!("accepted"),
    }
    // Upper case may be longer than lower case.
    assert_eq!(env_var_name("straße"), "YARDMASTER_SECRET_STRASSE");
}

#[test]
fn file_round_trip_creates_0600_and_parent_dirs() {
    let store = Disk::new();
    store
        .set("providers.jira-acme", Secret::new("tok-2".into()))
        .expect("set");
    assert_eq!(store.mode(), 0o600);
    let got = store
        .get("providers.jira-acme")
        .expect("get")
        .expect("some");
    assert_eq!(got.expose(), "tok-2");
    // Store boundary never leaks the value through Debug.
    assert_eq!(got.debug(), "Secret(***)");
}

#[test]
fn file_round_trip_keeps_awkward_values() {
    let store = Disk::new();
    let values = [
        "",
        "plain",
        "with \"double\" quotes",
        "with 'single' quotes",
        "both ' and \" and \"\"\" and '''",
        "back\\slash \\n",
        "tab\tand\nnewline\r\nand\u{7}\u{7f}",
        "\nleading",
        "ends with quotes''\"\"",
        "ünïcode …",
        "'\"\"",
        "\\\n",
    ];
    for (i, v) in values.iter().enumerate() {
        store
            .set(&format!("k.{i}-\"q'\n"), Secret::new(v.to_string()))
            .expect("set");
    }
    store.set("", Secret::new("empty key".into())).expect("set");
    for (i, v) in values.iter().enumerate() {
        let got = store.get(&format!("k.{i}-\"q'\n")).expect("get");
        assert_eq!(got.expect("some").expose(), *v, "{v:?}");
    }
    assert_eq!(
        store.get("").expect("get").expect("some").expose(),
        "empty key"
    );
    // Written again under the same key, a value is replaced.
    store.set("", Secret::new("other".into())).expect("set");
    assert_eq!(store.get("").expect("get").expect("some").expose(), "other");
}

#[test]
fn file_text_is_a_flat_map_in_key_order() {
    let store = FileStore::new("/s".to_owned());
    let first = store
        .set(&None, "b", &Secret::new("2".into()))
        .expect("set")
        .expect("writable");
    let second = store
        .set(&Some(Ok(first)), "a", &Secret::new("1".into()))
        .expect("set")
        .expect("writable");
    assert_eq!(second, "a = \"1\"\nb = \"2\"\n");
}

#[test]
fn values_with_long_runs_of_quotes_are_not_written() {
    let store = FileStore::new("/s".to_owned());
    let mut run = "'".repeat(255);
    run.push('"');
    assert!(store
        .set(&None, "k", &Secret::new(run))
        .expect("set")
        .is_some());
    assert!(store
        .set(&None, "k", &Secret::new("\"".repeat(256)))
        .expect("set")
        .is_none());
}

#[test]
fn file_missing_is_none() {
    let store = Disk::new();
    assert!(store.get("anything").expect("get").is_none());
}

#[test]
fn file_loose_permissions_rejected_on_read() {
    let store = Disk::new();
    store.set("k", Secret::new("v".into())).expect("set");
    store.chmod(0o644);
    match store.get("k") {
        Err(AdapterError::Permanent(msg)) => {
            assert!(msg.contains("chmod 600"), "actionable message, got: {msg}");
            assert_eq!(
                msg,
                "secrets file /state/secrets.toml has mode 644, accessible to group/others; \
                 run `chmod 600 /state/secrets.toml`"
            );
        }
        _ => panic!("expected Permanent error"),
    }
    // Bits above the permissions do not count.
    store.chmod(0o100600);
    assert!(store.get("k").is_ok());
    store.chmod(0o100004);
    assert!(store.get("k").is_err());
}

#[test]
fn file_write_tightens_loose_permissions() {
    let store = Disk::new();
    store.set("k", Secret::new("v1".into())).expect("set");
    store.chmod(0o644);
    store
        .set("k2", Secret::new("v2".into()))
        .expect("set enforces mode");
    assert_eq!(store.mode(), 0o600);
    assert_eq!(store.get("k").expect("get").expect("some").expose(), "v1");
}

#[test]
fn file_errors_are_spelled_out() {
    let store = FileStore::new("/s".to_owned());
    assert_eq!(
        store.check(FileStat::Failed("denied".to_owned())),
        Err(AdapterError::Permanent(
            "cannot stat secrets file /s: denied".to_owned()
        ))
    );
    match store.get(&Some(Err("denied".to_owned())), "k") {
        Err(AdapterError::Permanent(m)) => assert_eq!(m, "cannot read secrets file /s: denied"),
        _ => panic!("accepted"),
    }
    match store.get(&Some(Ok("[nested]\na = 1\n".to_owned())), "k") {
        Err(AdapterError::Permanent(m)) => {
            assert!(
                m.starts_with("secrets file /s is not a flat TOML map: "),
                "{m}"
            );
        }
        _ => panic!("accepted"),
    }
    let e = |fault: WriteFault| store.write_error(fault).message();
    assert!(e(WriteFault::Directory("/d".to_owned(), "x".to_owned()))
        .ends_with("cannot create secrets dir /d: x"));
    assert!(e(WriteFault::Mode("x".to_owned())).ends_with("cannot chmod secrets file /s: x"));
    assert!(e(WriteFault::Open("x".to_owned())).ends_with("cannot open secrets file /s: x"));
    assert!(e(WriteFault::Write("x".to_owned())).ends_with("cannot write secrets file /s: x"));
}

#[test]
fn keychain_answers_and_errors() {
    let store = KeyringStore::new();
    assert_eq!(store.service, "yardmaster");
    let found = store.get("k", KeyringRead::Value("v".to_owned()));
    assert_eq!(found.expect("get").expect("some").expose(), "v");
    assert!(store.get("k", KeyringRead::NoEntry).expect("get").is_none());
    match store.get("k", KeyringRead::Failed("locked".to_owned())) {
        Err(e) => assert!(e.message().ends_with("keychain read for k failed: locked")),
        Ok(_) => panic!("accepted"),
    }
    match store.get("k", KeyringRead::NoAddress("bad".to_owned())) {
        Err(e) => assert!(e
            .message()
            .ends_with("cannot address keychain entry for k: bad")),
        Ok(_) => panic!("accepted"),
    }
    assert_eq!(store.set("k", KeyringWrite::Done), Ok(()));
    assert!(store
        .set("k", KeyringWrite::Failed("locked".to_owned()))
        .is_err());
    assert!(store
        .set("k", KeyringWrite::NoAddress("bad".to_owned()))
        .is_err());
}

#[test]
fn chain_env_wins_over_file_and_set_falls_through_env() {
    let env: &'static Env = Box::leak(Box::new(Env(Mutex::new(BTreeMap::new()))));
    let chain = ChainStore(vec![Box::new(env), Box::new(Disk::new())]);

    // set: the environment rejects, the file accepts.
    chain
        .set("chain.test-key", Secret::new("from-file".into()))
        .expect("set");
    assert_eq!(
        chain
            .get("chain.test-key")
            .expect("get")
            .expect("some")
            .expose(),
        "from-file"
    );

    // precedence: once the env var exists it shadows the file value.
    env.0.lock().expect("lock").insert(
        "YARDMASTER_SECRET_CHAIN_TEST_KEY".to_owned(),
        "from-env".to_owned(),
    );
    assert_eq!(
        chain
            .get("chain.test-key")
            .expect("get")
            .expect("some")
            .expose(),
        "from-env"
    );
}

#[test]
fn chain_errors_propagate_and_the_last_refusal_is_told() {
    let env: &'static Env = Box::leak(Box::new(Env(Mutex::new(BTreeMap::new()))));
    let broken = Disk::new();
    broken.set("k", Secret::new("v".into())).expect("set");
    broken.chmod(0o644);
    let behind = Disk::new();
    behind.set("k", Secret::new("w".into())).expect("set");
    let chain = ChainStore(vec![Box::new(broken), Box::new(behind)]);
    assert!(chain.get("k").is_err());
    let refusing = ChainStore(vec![Box::new(env), Box::new(env)]);
    assert_eq!(
        refusing.set("k", Secret::new("v".into())),
        Err(AdapterError::Permanent("env store is read-only".to_owned()))
    );
}

#[test]
fn empty_chain_set_is_permanent() {
    let chain = ChainStore(Vec::new());
    assert!(matches!(
        chain.set("k", Secret::new("v".into())),
        Err(AdapterError::Permanent(_))
    ));
    assert!(chain.get("k").expect("get").is_none());
}

#[test]
fn the_default_chain_asks_the_environment_first() {
    assert_eq!(
        default_chain("/s", false),
        vec![StoreKind::Env, StoreKind::File("/s/secrets.toml".to_owned())]
    );
    assert_eq!(
        default_chain("/s", true),
        vec![
            StoreKind::Env,
            StoreKind::Keyring,
            StoreKind::File("/s/secrets.toml".to_owned())
        ]
    );
}

#[test]
fn each_answer_decides_how_a_chain_goes_on() {
    assert!(matches!(read_step(Ok(None)), ReadStep::Next));
    match read_step(Ok(Some(Secret::new("v".into())))) {
        ReadStep::Take(Ok(Some(s))) => assert_eq!(s.expose(), "v"),
        _ => panic!("a secret ends the search"),
    }
    let fault = || AdapterError::Transient("locked".to_owned());
    match read_step(Err(fault())) {
        ReadStep::Take(Err(e)) => assert_eq!(e, fault()),
        _ => panic!("an error ends the search"),
    }
    assert!(matches!(write_step(Ok(())), WriteStep::Take(Ok(()))));
    match write_step(Err(fault())) {
        WriteStep::Next(Err(e)) => assert_eq!(e, fault()),
        _ => panic!("a refusal passes the secret on"),
    }
}
