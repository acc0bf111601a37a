use review_kb::config::{
    config_to_consult, default_config_path, default_database_path, env_get,
    read_configured_database_path, resolve_database_path, write_database_path, write_err,
    ConfigFile, DatabaseLocation,
};
use review_kb::errors::ErrorCode;
use review_kb::path_util::{expanduser, expanduser_str, lexpath_resolve, normalize_lexical, path_join};

fn env(pairs: &[(&str, &str)]) -> Vec<(String, String)> {
    pairs.iter().map(|(k, v)| (k.to_string(), v.to_string())).collect()
}

#[test]
fn resolve_sources_and_paths_match_python() {
    let cases: &[(&str, Vec<(String, String)>, &str, &str)] = &[
        (
            "platform_default",
            env(&[("HOME", "/root")]),
            "/root/.local/share/review-kb/knowledge.db",
            "platform_default",
        ),
        (
            "xdg_data",
            env(&[("HOME", "/root"), ("XDG_DATA_HOME", "/xdg")]),
            "/xdg/review-kb/knowledge.db",
            "platform_default",
        ),
        ("env_var", env(&[("REVIEW_KB_DB", "/data/x.db")]), "/data/x.db", "environment"),
    ];
    for (_label, e, path, source) in cases {
        let loc = resolve_database_path(None, e, None, &ConfigFile::Missing, Some("/root")).unwrap();
        assert_eq!(loc.path, *path, "path for {source}");
        assert_eq!(loc.source, *source);
    }
}

#[test]
fn cli_path_wins_and_expandusers() {
    let e = env(&[("HOME", "/root")]);
    let loc =
        resolve_database_path(Some("/cli/x.db"), &e, None, &ConfigFile::Missing, Some("/root")).unwrap();
    assert_eq!(loc.path, "/cli/x.db");
    assert_eq!(loc.source, "command_line");

    let loc2 = resolve_database_path(Some("~/x.db"), &e, None, &ConfigFile::Missing, Some("/root")).unwrap();
    assert_eq!(loc2.path, "/root/x.db");
}

#[test]
fn default_paths_match_python() {
    let e = env(&[("HOME", "/root")]);
    assert_eq!(default_database_path(&e), "/root/.local/share/review-kb/knowledge.db");
    assert_eq!(default_config_path(&e, Some("/root")), "/root/.config/review-kb/config.toml");
    assert_eq!(
        default_config_path(&env(&[("HOME", "/root"), ("XDG_CONFIG_HOME", "/c")]), Some("/root")),
        "/c/review-kb/config.toml"
    );
    assert_eq!(
        default_config_path(&env(&[("HOME", "/root"), ("REVIEW_KB_CONFIG", "/custom.toml")]), Some("/root")),
        "/custom.toml"
    );
}

#[test]
fn write_then_read_roundtrip_format() {
    let cfg = "/tmp/config.toml";
    let write = write_database_path("/data/review-kb.db", Some(cfg), &env(&[]), None).unwrap();
    assert_eq!(write.target, cfg);
    assert_eq!(write.content, "db_path = \"/data/review-kb.db\"\n");
    let read = read_configured_database_path(cfg, &ConfigFile::Text(write.content), None)
        .unwrap()
        .unwrap();
    assert_eq!(read, "/data/review-kb.db");
}

#[test]
fn a_path_with_odd_characters_is_read_back() {
    for path in ["/a \"b\" \\ c\t.db", "/数据/知识.db", "/x\u{1}y", "/line\nbreak"] {
        let write = write_database_path(path, Some("c.toml"), &env(&[]), None).unwrap();
        let read = read_configured_database_path("c.toml", &ConfigFile::Text(write.content), None)
            .unwrap()
            .unwrap();
        assert_eq!(read, path);
    }
}

#[test]
fn write_empty_rejected() {
    let err = write_database_path("   ", Some("/tmp/config.toml"), &env(&[]), None).unwrap_err();
    assert_eq!(err.code, ErrorCode::InvalidArgument);
    assert_eq!(err.message, "db_path must not be empty");
}

#[test]
fn missing_config_file_returns_none() {
    assert!(read_configured_database_path("/tmp/nope.toml", &ConfigFile::Missing, None)
        .unwrap()
        .is_none());
}

#[test]
fn empty_review_kb_env_falls_through_like_python() {
    let e = env(&[("HOME", "/root"), ("REVIEW_KB_DB", "")]);
    let loc = resolve_database_path(None, &e, None, &ConfigFile::Missing, Some("/root")).unwrap();
    assert_eq!(loc.source, "platform_default");
    assert_eq!(loc.path, "/root/.local/share/review-kb/knowledge.db");

    assert_eq!(
        default_config_path(&env(&[("HOME", "/root"), ("REVIEW_KB_CONFIG", "")]), Some("/root")),
        "/root/.config/review-kb/config.toml"
    );
}

#[test]
fn every_place_of_the_database_in_turn() {
    let e = env(&[("HOME", "/root"), ("REVIEW_KB_DB", "~/e.db")]);
    let file = ConfigFile::Text("db_path = '~/f.db'\nother = 1\n".to_string());
    let at = |cli: Option<&str>, e: &[(String, String)], file: &ConfigFile| -> DatabaseLocation {
        resolve_database_path(cli, e, None, file, Some("/root")).unwrap()
    };
    let by_cli = at(Some("c.db"), &e, &file);
    assert_eq!((by_cli.path.as_str(), by_cli.source.as_str()), ("c.db", "command_line"));
    let by_env = at(None, &e, &file);
    assert_eq!((by_env.path.as_str(), by_env.source.as_str()), ("/root/e.db", "environment"));
    let bare = env(&[("HOME", "/root")]);
    let by_file = at(None, &bare, &file);
    assert_eq!((by_file.path.as_str(), by_file.source.as_str()), ("/root/f.db", "config_file"));
    let by_default = at(None, &bare, &ConfigFile::Missing);
    assert_eq!(by_default.source, "platform_default");
    assert_eq!(by_default.clone(), by_default);
}

#[test]
fn the_configuration_is_consulted_only_where_it_counts() {
    let bare = env(&[("HOME", "/root")]);
    assert_eq!(config_to_consult(Some("x"), &bare, None, None), None);
    assert_eq!(config_to_consult(None, &env(&[("REVIEW_KB_DB", "x")]), None, None), None);
    assert_eq!(
        config_to_consult(None, &bare, None, None).as_deref(),
        Some("/root/.config/review-kb/config.toml")
    );
    assert_eq!(config_to_consult(None, &bare, Some("c.toml"), None).as_deref(), Some("c.toml"));
}

#[test]
fn configurations_that_cannot_be_used() {
    let message = |file: ConfigFile| -> String {
        let err = read_configured_database_path("c.toml", &file, None).unwrap_err();
        assert_eq!(err.code, ErrorCode::InvalidArgument);
        err.message
    };
    assert!(message(ConfigFile::Text("db_path = ".into())).starts_with("invalid config file: "));
    assert_eq!(
        message(ConfigFile::Unreadable("denied".into())),
        "invalid config file: denied"
    );
    for text in ["", "db_path = 1", "db_path = ' '", "[db_path]"] {
        assert_eq!(
            message(ConfigFile::Text(text.into())),
            "config db_path must be a non-empty string"
        );
    }
    assert_eq!(write_err("c.toml", "full").message, "could not write config file: full");
}

#[test]
fn environment_lookup_takes_the_first() {
    let e = env(&[("A", "1"), ("B", "2"), ("A", "3")]);
    assert_eq!(env_get(&e, "A").as_deref(), Some("1"));
    assert_eq!(env_get(&e, "C"), None);
}

#[test]
fn normalize_dots() {
    let at = |path: &str| -> String { lexpath_resolve(path, None, "/cwd") };
    assert_eq!(at("/a/b/../c"), "/a/c");
    assert_eq!(at("/a/b/./c"), "/a/b/c");
    assert_eq!(at("/a/../../b"), "/b");
    assert_eq!(at("/a/b/c/../.."), "/a");
}

#[test]
fn expanduser_basic() {
    let home = Some("/root");
    assert_eq!(expanduser_str("~/x", home), "/root/x");
    assert_eq!(expanduser_str("~", home), "/root");
    assert_eq!(expanduser_str("/abs/x", home), "/abs/x");
}

#[test]
fn paths_in_other_shapes() {
    assert_eq!(lexpath_resolve("x/../y", None, "/cwd/d"), "/cwd/d/y");
    assert_eq!(lexpath_resolve("~/x", Some("/h"), "/cwd"), "/h/x");
    assert_eq!(normalize_lexical("/"), "/");
    assert_eq!(normalize_lexical(&normalize_lexical("/a//b/./../c/")), "/a/c");
    assert_eq!(expanduser("~user/x", Some("/h")), "~user/x");
    assert_eq!(expanduser("~/x", None), "~/x");
    assert_eq!(path_join("/a", "b"), "/a/b");
    assert_eq!(path_join("/a/", "b"), "/a/b");
    assert_eq!(path_join("/a", "/b"), "/b");
}

#[test]
fn a_tilde_stands_for_the_given_home() {
    let e = env(&[("HOME", "/other"), ("REVIEW_KB_DB", "~/e.db"), ("REVIEW_KB_CONFIG", "~/c.toml")]);
    let at = |cli: Option<&str>, home: Option<&str>| -> String {
        resolve_database_path(cli, &e, None, &ConfigFile::Missing, home).unwrap().path
    };
    assert_eq!(at(Some("~/x.db"), Some("/me")), "/me/x.db");
    assert_eq!(at(None, Some("/me")), "/me/e.db");
    assert_eq!(at(Some("~/x.db"), None), "~/x.db");
    assert_eq!(default_config_path(&e, Some("/me")), "/me/c.toml");
    assert_eq!(default_config_path(&e, None), "~/c.toml");
    let write = write_database_path("/d.db", None, &e, Some("/me")).unwrap();
    assert_eq!(write.target, "/me/c.toml");

    let bare = env(&[("HOME", "/other")]);
    assert_eq!(
        config_to_consult(None, &bare, None, Some("/me")).as_deref(),
        Some("/other/.config/review-kb/config.toml")
    );
    let file = ConfigFile::Text("db_path = '~/f.db'\n".to_string());
    let found = resolve_database_path(None, &bare, None, &file, Some("/me")).unwrap();
    assert_eq!(found.path, "/me/f.db");
    let usual = resolve_database_path(None, &bare, None, &ConfigFile::Missing, Some("/me")).unwrap();
    assert_eq!(usual.path, "/other/.local/share/review-kb/knowledge.db");
}
