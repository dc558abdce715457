use yardmaster::config::{
    builtin_omp_agent, default_base, default_branch_template, render_template, segments, slugify,
    Agent, Config, ConfigError, ConfigSource, MergePolicy, Provider, Repo, Segment,
    DEFAULT_GITHUB_API_URL,
};
use yardmaster::table::Table;

fn strings(items: &[&str]) -> Vec<String> {
    items.iter().map(|s| s.to_string()).collect()
}

fn with_repo(name: &str, repo: Repo) -> Config {
    let mut config = Config::default();
    config.repos = config.repos.insert(name.to_owned(), repo);
    config
}

fn app() -> Repo {
    Repo::new("/opt/app", "github")
}

fn validation(config: &Config) -> String {
    let err = config.validate().expect_err("must be rejected");
    assert!(matches!(err, ConfigError::Validation { .. }), "{err:?}");
    err.message()
}

#[test]
fn defaults_applied_when_absent() {
    let config = with_repo("app", app());
    assert!(config.profile.lock_public_gate);
    assert_eq!(config.providers.len(), 0);
    let app = config.repos.get("app").expect("repo");
    assert_eq!(app.base, "main");
    assert_eq!(app.branch_template, "{type}/{ticket}-{slug}");
    assert!(app.check_command.is_empty());
    assert!(app.rebase);
    assert_eq!(app.ci_retry_cap, 3);
    assert_eq!(app.merge_policy, MergePolicy::default());
    assert_eq!(app.merge_policy.ci, "green");
    assert_eq!(app.merge_policy.approvals, 1);
    assert!(app.merge_policy.no_changes_requested);
    assert_eq!(config.budgets.default_tokens_per_item, 0);
    assert_eq!(default_base(), "main");
    assert_eq!(default_branch_template(), "{type}/{ticket}-{slug}");
}

#[test]
fn unknown_provider_kind_is_validation_error() {
    let mut config = Config::default();
    config.providers = config.providers.insert(
        "x".to_owned(),
        Provider {
            kind: "gitlab".to_owned(),
            url: None,
            user: None,
        },
    );
    let msg = validation(&config);
    assert!(msg.contains("gitlab") && msg.contains("'x'"), "{msg}");
}

#[test]
fn bad_branch_placeholder_is_validation_error() {
    let mut repo = app();
    repo.branch_template = "{type}/{tycket}".to_owned();
    let msg = validation(&with_repo("app", repo));
    assert!(msg.contains("{tycket}") && msg.contains("'app'"), "{msg}");
}

#[test]
fn load_missing_default_yields_default_but_explicit_missing_errors() {
    let missing = || ConfigSource::Missing {
        path: "/tmp/none/config.toml".to_owned(),
        source: "No such file or directory (os error 2)".to_owned(),
    };
    let config = Config::load(missing(), false, &None).expect("missing default file is fine");
    assert_eq!(config, Config::default());

    let err = Config::load(missing(), true, &None).expect_err("explicit path must exist");
    assert!(matches!(err, ConfigError::Io { .. }), "{err:?}");
}

#[test]
fn load_expands_repo_tilde() {
    let parsed = with_repo("app", Repo::new("~/dev/app", "github"));
    let config = Config::load(
        ConfigSource::Parsed(parsed),
        true,
        &Some("/home/yard".to_owned()),
    )
    .expect("load");
    assert_eq!(
        config.repos.get("app").expect("repo").path,
        "/home/yard/dev/app"
    );
}

#[test]
fn load_reports_unreadable_malformed_and_invalid_files() {
    let io = Config::load(
        ConfigSource::Unreadable {
            path: "/c".to_owned(),
            source: "denied".to_owned(),
        },
        false,
        &None,
    );
    assert!(matches!(io, Err(ConfigError::Io { .. })));
    let parse = Config::load(
        ConfigSource::Malformed {
            path: "/c".to_owned(),
            source: "bad".to_owned(),
        },
        false,
        &None,
    );
    assert!(matches!(parse, Err(ConfigError::Parse { .. })));
    let mut repo = app();
    repo.agent = Some("hal9000".to_owned());
    let invalid = Config::load(
        ConfigSource::Parsed(with_repo("app", repo)),
        false,
        &None,
    );
    assert!(matches!(invalid, Err(ConfigError::Validation { .. })));
}

#[test]
fn render_template_substitutes_and_rejects_unknowns() {
    let vars = Table::new()
        .insert("type".to_owned(), "feat".to_owned())
        .insert("ticket".to_owned(), "ZEE-42".to_owned())
        .insert("slug".to_owned(), "login".to_owned());
    assert_eq!(
        render_template("{type}/{ticket}-{slug}", &vars).expect("render"),
        "feat/ZEE-42-login"
    );
    assert_eq!(
        render_template("no-placeholders", &vars).expect("render"),
        "no-placeholders"
    );

    let err = render_template("{type}/{oops}", &vars).expect_err("unknown var");
    assert!(err.message().contains("{oops}"), "{err:?}");

    let err = render_template("{type", &vars).expect_err("unclosed brace");
    assert!(matches!(err, ConfigError::Validation { .. }), "{err:?}");
}

#[test]
fn templates_split_into_segments() {
    assert_eq!(
        segments("a{x}b").expect("valid"),
        vec![
            Segment::Lit("a".to_owned()),
            Segment::Var("x".to_owned()),
            Segment::Lit("b".to_owned()),
        ]
    );
}

#[test]
fn repo_extensions_are_honoured() {
    let mut config = Config::default();
    config.providers = config.providers.insert(
        "gh".to_owned(),
        Provider {
            kind: "github".to_owned(),
            url: None,
            user: Some("me".to_owned()),
        },
    );
    config.agents = config.agents.insert(
        "stub".to_owned(),
        Agent {
            start_cmd: strings(&["/bin/sh", "run.sh", "{session_dir}"]),
            resume_cmd: None,
        },
    );
    let mut repo = app();
    repo.provider = Some("gh".to_owned());
    repo.remote_repo = Some("acme/app".to_owned());
    repo.agent = Some("stub".to_owned());
    repo.worktrees_root = Some("/opt/worktrees".to_owned());
    config.repos = config.repos.insert("app".to_owned(), repo);
    config.validate().expect("valid");
    let app = config.repos.get("app").expect("repo");
    assert_eq!(app.agent_name(), "stub");
    assert_eq!(app.worktrees_root(), "/opt/worktrees");
    assert_eq!(
        config.providers.get("gh").expect("provider").api_url(),
        DEFAULT_GITHUB_API_URL
    );
}

#[test]
fn worktrees_root_defaults_to_sibling_directory() {
    let repo = Repo::new("/home/me/dev/backend", "github");
    assert_eq!(repo.worktrees_root(), "/home/me/dev/backend-worktrees");
}

#[test]
fn builtin_omp_agent_is_resolvable_and_overridable() {
    let config = with_repo("app", app());
    config.validate().expect("default agent name resolves");
    assert_eq!(config.repos.get("app").expect("repo").agent_name(), "omp");
    let omp = config.agent("omp").expect("built-in omp");
    assert_eq!(omp.start_cmd[0], "omp");
    assert!(omp.resume_cmd.is_some());
    assert_eq!(omp, builtin_omp_agent());

    let mut overridden = Config::default();
    overridden.agents = overridden.agents.insert(
        "omp".to_owned(),
        Agent {
            start_cmd: strings(&["my-omp"]),
            resume_cmd: None,
        },
    );
    assert_eq!(
        overridden.agent("omp").expect("configured omp").start_cmd,
        strings(&["my-omp"])
    );
    assert_eq!(overridden.agent("nope"), None);
}

#[test]
fn unknown_repo_provider_is_validation_error() {
    let mut repo = app();
    repo.provider = Some("ghost".to_owned());
    let msg = validation(&with_repo("app", repo));
    assert!(msg.contains("ghost") && msg.contains("'app'"), "{msg}");
}

#[test]
fn unknown_repo_agent_is_validation_error() {
    let mut repo = app();
    repo.agent = Some("hal9000".to_owned());
    let msg = validation(&with_repo("app", repo));
    assert!(msg.contains("hal9000") && msg.contains("'app'"), "{msg}");
}

#[test]
fn empty_agent_start_cmd_is_validation_error() {
    let mut config = Config::default();
    config.agents = config.agents.insert(
        "stub".to_owned(),
        Agent {
            start_cmd: Vec::new(),
            resume_cmd: None,
        },
    );
    let msg = validation(&config);
    assert!(msg.contains("start_cmd"), "{msg}");
}

#[test]
fn slugify_edge_cases() {
    assert_eq!(
        slugify("Fix the Café: naïve re-encoding!!"),
        "fix-the-cafe-naive-re-encoding"
    );
    assert_eq!(slugify("  Ça marche à 100%  "), "ca-marche-a-100");
    assert_eq!(slugify("___"), "");
    assert_eq!(slugify(""), "");
    assert_eq!(slugify("UPPER lower 123"), "upper-lower-123");

    assert_eq!(slugify(&"a".repeat(50)), "a".repeat(40));
    let boundary = format!("{} bb", "a".repeat(39));
    assert_eq!(slugify(&boundary), "a".repeat(39));
}

#[test]
fn slugs_fold_listed_letters_only() {
    assert_eq!(slugify("ÀÉÎÕÜ ÇÑ"), "aeiou-cn");
    // KELVIN SIGN is no ASCII letter: it separates.
    assert_eq!(slugify("a\u{212a}b"), "a-b");
    assert_eq!(slugify("Ωmega"), "mega");
    // The dotted capital I and the ANGSTROM SIGN lower to letters that fold.
    assert_eq!(slugify("\u{130}stanbul"), "istanbul");
    assert_eq!(slugify("10 \u{212b}ngstrom"), "10-angstrom");
}

#[test]
fn slugs_are_their_own_slugs() {
    for title in ["Fix the Café: naïve re-encoding!!", "a b", "--x--", ""] {
        let slug = slugify(title);
        assert_eq!(slugify(&slug), slug);
    }
    let cut = slugify(&format!("{} b", "a".repeat(39)));
    assert_eq!(slugify(&cut), cut);
}

#[test]
fn configurations_are_cloned_whole() {
    let mut config = Config::default();
    config.providers = config.providers.insert(
        "gh".to_owned(),
        Provider {
            kind: "github".to_owned(),
            url: None,
            user: Some("me".to_owned()),
        },
    );
    config.agents = config
        .agents
        .insert("omp".to_owned(), builtin_omp_agent());
    config.repos = config
        .repos
        .insert("app".to_owned(), Repo::new("/opt/app", "github"));
    assert_eq!(config.clone(), config);
    assert_ne!(config.clone(), Config::default());
}
