use kdbx_env::config::select_mode;
use kdbx_env::config::ExtractError;
use kdbx_env::config::RunMode;
use kdbx_env::format::parse_line;
use kdbx_env::format::render_line;
use kdbx_env::path::resolve;
use kdbx_env::sink::EnvMap;

#[test]
fn absent_path_resolves_to_no_segments() {
    assert_eq!(resolve(None), Vec::<String>::new());
}

#[test]
fn empty_path_resolves_to_no_segments() {
    assert_eq!(resolve(Some("")), Vec::<String>::new());
}

#[test]
fn plain_path_splits_on_slash() {
    assert_eq!(resolve(Some("a/b")), vec!["a".to_string(), "b".to_string()]);
}

#[test]
fn single_name_is_one_segment() {
    assert_eq!(resolve(Some("db")), vec!["db".to_string()]);
}

#[test]
fn leading_slash_keeps_empty_segment() {
    assert_eq!(resolve(Some("/a")), vec!["".to_string(), "a".to_string()]);
}

#[test]
fn trailing_and_double_slashes_keep_empty_segments() {
    assert_eq!(
        resolve(Some("a//b/")),
        vec![
            "a".to_string(),
            "".to_string(),
            "b".to_string(),
            "".to_string()
        ]
    );
}

#[test]
fn lone_slash_is_two_empty_segments() {
    assert_eq!(resolve(Some("/")), vec!["".to_string(), "".to_string()]);
}

#[test]
fn rendered_line_joins_with_equals() {
    assert_eq!(render_line("user", "pw"), "user=pw");
    assert_eq!(render_line("", ""), "=");
}

#[test]
fn parse_splits_on_first_equals() {
    assert_eq!(
        parse_line("k=v=w"),
        Some(("k".to_string(), "v=w".to_string()))
    );
    assert_eq!(parse_line("=v"), Some(("".to_string(), "v".to_string())));
    assert_eq!(parse_line("k="), Some(("k".to_string(), "".to_string())));
    assert_eq!(parse_line("no separator"), None);
}

#[test]
fn line_round_trips_through_parse() {
    let pairs = [("alice", "secret"), ("bob", "hunter2"), ("", "x=y")];
    for (k, v) in pairs {
        let line = render_line(k, v);
        assert_eq!(parse_line(&line), Some((k.to_string(), v.to_string())));
    }
}

#[test]
fn env_map_keeps_last_value_per_key() {
    let mut env = EnvMap::new();
    env.insert("a".to_string(), "1".to_string());
    env.insert("b".to_string(), "2".to_string());
    env.insert("a".to_string(), "3".to_string());
    assert_eq!(
        env.pairs,
        vec![
            ("a".to_string(), "3".to_string()),
            ("b".to_string(), "2".to_string())
        ]
    );
}

#[test]
fn neither_output_nor_shell_is_a_configuration_error() {
    match select_mode(None, None) {
        Err(ExtractError::Configuration) => {}
        _ => panic!("expected a configuration error"),
    }
}

#[test]
fn output_path_selects_file_mode() {
    match select_mode(Some("out.env".to_string()), Some("sh".to_string())) {
        Ok(RunMode::ToFile(p)) => assert_eq!(p, "out.env"),
        _ => panic!("expected file mode"),
    }
}

#[test]
fn shell_alone_selects_shell_mode() {
    match select_mode(None, Some("bash".to_string())) {
        Ok(RunMode::ToShell(s)) => assert_eq!(s, "bash"),
        _ => panic!("expected shell mode"),
    }
}

#[test]
fn error_messages_name_the_failure() {
    assert_eq!(
        ExtractError::Configuration.message(),
        "either output file or shell should be specified"
    );
    assert_eq!(
        ExtractError::StoreAccess("bad key".to_string()).message(),
        "cannot open store: bad key"
    );
    assert_eq!(
        ExtractError::SinkWrite("disk full".to_string()).message(),
        "cannot write output: disk full"
    );
    assert_eq!(
        ExtractError::ProcessSpawn("not found".to_string()).message(),
        "cannot launch program: not found"
    );
}
