use jconf::config_file::{escape_var, validated_path, ConfigFile, ConfigError, ConfigPath,
    ConfigVisitor, PathError, TableEntry};
use jconf::env::Env;

fn env_of(pairs: &[(&str, &str)]) -> Env {
    Env { vars: pairs.iter().map(|(k, v)| (k.to_string(), v.to_string())).collect() }
}

fn home_env() -> Env {
    env_of(&[("HOME", "/home/user"), ("XDG", "/home/user/.config")])
}

#[test]
fn escape_var_expands_home() {
    let env = home_env();
    assert_eq!(escape_var("~/.bashrc", &env).unwrap(), "/home/user/.bashrc");
    assert_eq!(escape_var("~", &env).unwrap(), "/home/user");
}

#[test]
fn escape_var_expands_variable() {
    let env = home_env();
    assert_eq!(escape_var("$XDG/helix", &env).unwrap(), "/home/user/.config/helix");
    assert_eq!(escape_var("$XDG", &env).unwrap(), "/home/user/.config");
}

#[test]
fn escape_var_does_not_expand_a_variables_value() {
    // a `$VAR` path is reassembled exactly: a value starting with `~` is
    // used as it is, and HOME plays no part
    let env = env_of(&[("V", "~/z")]);
    assert_eq!(escape_var("$V", &env).unwrap(), "~/z");
    assert_eq!(escape_var("$V/w", &env).unwrap(), "~/z/w");
}

#[test]
fn escape_var_plain_path_unchanged() {
    let env = home_env();
    assert_eq!(escape_var("/etc/hosts", &env).unwrap(), "/etc/hosts");
}

#[test]
fn escape_var_missing_variable_fails() {
    let env = home_env();
    assert_eq!(escape_var("$NOSUCHVAR/x", &env), Err(PathError::EnvVarMissing));
    assert_eq!(escape_var("$NOSUCHVAR", &env), Err(PathError::EnvVarMissing));
}

#[test]
fn trailing_slash_resolves_to_that_directory() {
    // a specification ending in `/` keeps exactly that directory as the
    // base and gets the match-everything include pattern
    let env = home_env();
    let cp = ConfigVisitor.visit_str("~/.config/helix/", &env, true).unwrap();
    assert_eq!(cp.base_path, "/home/user/.config/helix/");
    assert_eq!(cp.include_glob, "**/*");
    assert!(cp.exclude_glob.is_none());
}

#[test]
fn file_path_splits_into_parent_and_name() {
    // a specification naming a file takes the parent directory as the
    // base and exactly the file's name as the include pattern
    let env = home_env();
    let cp = ConfigVisitor.visit_str("~/.bashrc", &env, false).unwrap();
    assert_eq!(cp.base_path, "/home/user");
    assert_eq!(cp.include_glob, ".bashrc");
    assert!(cp.exclude_glob.is_none());
}

#[test]
fn directory_without_trailing_slash_is_rejected() {
    let env = home_env();
    let r = ConfigVisitor.visit_str("/etc/helix", &env, true);
    assert_eq!(r.unwrap_err(), PathError::InvalidDirectorySpec);
}

#[test]
fn trailing_slash_on_non_directory_is_rejected() {
    let env = home_env();
    let r = ConfigVisitor.visit_str("/etc/helix/", &env, false);
    assert_eq!(r.unwrap_err(), PathError::InvalidDirectorySpec);
}

#[test]
fn empty_final_segment_is_rejected() {
    let env = home_env();
    let r = ConfigVisitor.visit_str("", &env, false);
    assert_eq!(r.unwrap_err(), PathError::InvalidFileName);
}

#[test]
fn dot_segments_are_rejected_as_file_names() {
    // `.` and `..` are no file names, so they cannot become the include
    // pattern
    let env = home_env();
    let r = ConfigVisitor.visit_str("~/..", &env, false);
    assert_eq!(r.unwrap_err(), PathError::InvalidFileName);
    let r = ConfigVisitor.visit_str("..", &env, false);
    assert_eq!(r.unwrap_err(), PathError::InvalidFileName);
    let r = ConfigVisitor.visit_str("/etc/.", &env, false);
    assert_eq!(r.unwrap_err(), PathError::InvalidFileName);
}

#[test]
fn visit_string_matches_visit_str() {
    let env = home_env();
    let cp = ConfigVisitor.visit_string("~/.bashrc".to_string(), &env, false).unwrap();
    assert_eq!(cp.base_path, "/home/user");
    assert_eq!(cp.include_glob, ".bashrc");
}

#[test]
fn validated_path_keeps_preset_include() {
    let env = home_env();
    let mut inc = Some("*.toml".to_string());
    let base = validated_path("~/.bashrc", &env, false, &mut inc).unwrap();
    assert_eq!(base, "/home/user");
    assert_eq!(inc.as_deref(), Some("*.toml"));
}

fn entry(key: &str, value: &str, expanded_is_dir: bool) -> TableEntry {
    TableEntry { key: key.to_string(), value: value.to_string(), expanded_is_dir }
}

#[test]
fn table_with_path_and_exclude() {
    let env = home_env();
    let entries = vec![
        entry("path", "~/.config/helix/", true),
        entry("exclude", "runtime/**", false),
        entry("comment", "ignored", false),
    ];
    let cp = ConfigVisitor.visit_map(&entries, &env).unwrap();
    assert_eq!(cp.base_path, "/home/user/.config/helix/");
    assert_eq!(cp.include_glob, "**/*");
    assert_eq!(cp.exclude_glob.as_deref(), Some("runtime/**"));
}

#[test]
fn table_include_field_takes_precedence() {
    // an explicit include field always beats a file name split off the
    // path value, whatever the order of the keys
    let field_first = vec![entry("include", "*.toml", false), entry("path", "~/.bashrc", false)];
    let path_first = vec![entry("path", "~/.bashrc", false), entry("include", "*.toml", false)];
    let env = home_env();
    for entries in [field_first, path_first] {
        let cp = ConfigVisitor.visit_map(&entries, &env).unwrap();
        assert_eq!(cp.base_path, "/home/user");
        assert_eq!(cp.include_glob, "*.toml");
    }
}

#[test]
fn table_without_path_is_rejected() {
    let env = home_env();
    let entries = vec![entry("include", "*.toml", false)];
    let r = ConfigVisitor.visit_map(&entries, &env);
    assert_eq!(r.unwrap_err(), PathError::MissingPathField);
}

#[test]
fn table_with_bad_path_is_rejected() {
    let env = home_env();
    let entries = vec![entry("path", "$NOSUCHVAR/x", false)];
    let r = ConfigVisitor.visit_map(&entries, &env);
    assert_eq!(r.unwrap_err(), PathError::EnvVarMissing);
}

fn sample_config() -> ConfigFile {
    let env = home_env();
    let cp = |s: &str| ConfigVisitor.visit_str(s, &env, false).unwrap();
    ConfigFile {
        configs: vec![
            ("shell".to_string(), cp("~/.bashrc")),
            ("git".to_string(), cp("~/.gitconfig")),
            ("vim".to_string(), cp("~/.vimrc")),
        ],
    }
}

#[test]
fn reduce_without_selection_returns_everything() {
    let all = sample_config().reduce_to_configs(None).unwrap();
    let names: Vec<&str> = all.iter().map(|(n, _)| n.as_str()).collect();
    assert_eq!(names, ["shell", "git", "vim"]);
}

#[test]
fn reduce_keeps_the_callers_order() {
    let picked = sample_config()
        .reduce_to_configs(Some(vec!["vim".to_string(), "shell".to_string()]))
        .unwrap();
    let names: Vec<&str> = picked.iter().map(|(n, _)| n.as_str()).collect();
    assert_eq!(names, ["vim", "shell"]);
    assert_eq!(picked[0].1.include_glob, ".vimrc");
}

#[test]
fn reduce_unknown_name_fails_whole_reduction() {
    let r = sample_config()
        .reduce_to_configs(Some(vec!["shell".to_string(), "doesnotexist".to_string()]));
    match r {
        Err(ConfigError::UnknownConfigName(n)) => assert_eq!(n, "doesnotexist"),
        other => panic!("expected UnknownConfigName, got {:?}", other),
    }
}

#[test]
fn reduce_same_name_twice_fails() {
    let r = sample_config()
        .reduce_to_configs(Some(vec!["git".to_string(), "git".to_string()]));
    match r {
        Err(ConfigError::UnknownConfigName(n)) => assert_eq!(n, "git"),
        other => panic!("expected UnknownConfigName, got {:?}", other),
    }
}

#[test]
fn config_path_fields_survive_clone() {
    let env = home_env();
    let cp: ConfigPath = ConfigVisitor.visit_str("~/.bashrc", &env, false).unwrap();
    let cp2 = cp.clone();
    assert_eq!(cp2.base_path, cp.base_path);
    assert_eq!(cp2.include_glob, cp.include_glob);
}
