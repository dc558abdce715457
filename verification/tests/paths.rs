use yardmaster::paths::{
    config_path, db_path, expand_tilde, file_name, home_dir, join_path, lock_path, socket_path,
    state_dir, with_file_name,
};

fn some(s: &str) -> Option<String> {
    Some(s.to_owned())
}

#[test]
fn env_overrides_take_precedence() {
    assert_eq!(
        config_path(&some("/tmp/custom.toml"), &some("/home/yard")),
        "/tmp/custom.toml"
    );
    assert_eq!(
        state_dir(&some("/tmp/custom-state"), &some("/home/yard")),
        "/tmp/custom-state"
    );
}

#[test]
fn defaults_derive_from_home() {
    assert_eq!(
        config_path(&None, &some("/home/yard")),
        "/home/yard/.config/yardmaster/config.toml"
    );
    assert_eq!(
        state_dir(&None, &some("/home/yard")),
        "/home/yard/.local/state/yardmaster"
    );
}

#[test]
fn state_file_helpers_join_names() {
    let dir = "/var/state";
    assert_eq!(db_path(dir), "/var/state/yardmaster.db");
    assert_eq!(socket_path(dir), "/var/state/daemon.sock");
    assert_eq!(lock_path(dir), "/var/state/daemon.lock");
}

#[test]
fn tilde_expansion() {
    let home = some("/home/yard");
    assert_eq!(expand_tilde("~", &home), "/home/yard");
    assert_eq!(expand_tilde("~/dev/x", &home), "/home/yard/dev/x");
    assert_eq!(expand_tilde("/abs/path", &home), "/abs/path");
    assert_eq!(expand_tilde("rel/path", &home), "rel/path");
    // `~user` is unsupported: kept verbatim, never mangled.
    assert_eq!(expand_tilde("~bob/x", &home), "~bob/x");
}

#[test]
fn slashes_behind_the_tilde_do_not_leave_home() {
    let home = some("/home/yard");
    assert_eq!(expand_tilde("~//etc", &home), "/home/yard/etc");
    assert_eq!(expand_tilde("~///", &home), "/home/yard/");
    assert_eq!(expand_tilde("~/", &home), "/home/yard/");
}

#[test]
fn paths_behave_as_std_paths_do() {
    let cases = ["/a/b", "/a/b/", "a", "/", "", "/a/..", "a/.", "/a//b"];
    for base in cases {
        for child in ["x", "/abs", "", "x/y"] {
            assert_eq!(
                join_path(base, child),
                std::path::Path::new(base).join(child).to_str().expect("utf-8"),
                "{base:?} + {child:?}"
            );
        }
        assert_eq!(
            file_name(base).as_deref(),
            std::path::Path::new(base).file_name().and_then(|n| n.to_str()),
            "{base:?}"
        );
        assert_eq!(
            with_file_name(base, "new"),
            std::path::Path::new(base)
                .with_file_name("new")
                .to_str()
                .expect("utf-8"),
            "{base:?}"
        );
    }
}

#[test]
fn home_falls_back() {
    assert_eq!(home_dir(&some("/home/me")), "/home/me");
    assert_eq!(home_dir(&None), ".");
    assert_eq!(home_dir(&some("")), ".");
}
