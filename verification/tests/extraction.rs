use kdbx_env::config::RunMode;
use kdbx_env::sink::EnvTarget;
use kdbx_env::sink::FileTarget;
use kdbx_env::tree::Entry;
use kdbx_env::tree::Group;
use kdbx_env::tree::Node;
use kdbx_env::walk::extract_env;
use kdbx_env::walk::search_env;

fn entry(user: Option<&str>, pass: Option<&str>) -> Node {
    Node::Entry(Entry {
        title: None,
        username: user.map(|s| s.to_string()),
        password: pass.map(|s| s.to_string()),
    })
}

fn group(name: &str, children: Vec<Node>) -> Node {
    Node::Group(Group { name: name.to_string(), children })
}

fn root_of(children: Vec<Node>) -> Group {
    Group { name: "Root".to_string(), children }
}

fn file_lines(root: &Group, path: Option<&str>) -> Vec<String> {
    let mut target = EnvTarget::File(FileTarget::new());
    extract_env(root, path, &mut target);
    match target {
        EnvTarget::File(f) => f.lines,
        EnvTarget::Shell(_) => panic!("expected a file target"),
    }
}

fn shell_pairs(root: &Group, path: Option<&str>, shell: &str) -> Vec<(String, String)> {
    let mut target = EnvTarget::for_mode(&RunMode::ToShell(shell.to_string()));
    extract_env(root, path, &mut target);
    match target {
        EnvTarget::Shell(s) => s.env.pairs,
        EnvTarget::File(_) => panic!("expected a shell target"),
    }
}

fn sample_tree() -> Group {
    root_of(vec![
        group("db", vec![entry(Some("alice"), Some("secret"))]),
        entry(Some("bob"), Some("hunter2")),
    ])
}

#[test]
fn empty_path_emits_only_direct_entries() {
    let lines = file_lines(&sample_tree(), None);
    assert_eq!(lines, vec!["bob=hunter2".to_string()]);
}

#[test]
fn single_segment_descends_into_named_group() {
    let lines = file_lines(&sample_tree(), Some("db"));
    assert_eq!(lines, vec!["alice=secret".to_string()]);
}

#[test]
fn deep_nesting_is_skipped_without_path() {
    let root = root_of(vec![
        group(
            "a",
            vec![group("b", vec![entry(Some("deep"), Some("x"))])],
        ),
        entry(Some("top"), Some("y")),
    ]);
    assert_eq!(file_lines(&root, None), vec!["top=y".to_string()]);
}

#[test]
fn two_segments_follow_exact_names() {
    let root = root_of(vec![
        group(
            "a",
            vec![
                group("b", vec![entry(Some("inner"), Some("pw"))]),
                entry(Some("mid"), Some("mp")),
            ],
        ),
        group("a/b", vec![entry(Some("literal"), Some("lp"))]),
        entry(Some("top"), Some("tp")),
    ]);
    let lines = file_lines(&root, Some("a/b"));
    assert_eq!(lines, vec!["inner=pw".to_string()]);
}

#[test]
fn slash_named_group_is_never_matched() {
    let root = root_of(vec![group("a/b", vec![entry(Some("u"), Some("p"))])]);
    assert_eq!(file_lines(&root, Some("a/b")), Vec::<String>::new());
}

#[test]
fn missing_username_or_password_is_skipped() {
    let root = root_of(vec![
        entry(Some("one"), Some("1")),
        entry(Some("no_pass"), None),
        entry(None, Some("no_user")),
        entry(None, None),
        entry(Some("two"), Some("2")),
    ]);
    let lines = file_lines(&root, None);
    assert_eq!(lines, vec!["one=1".to_string(), "two=2".to_string()]);
}

#[test]
fn empty_strings_are_present_values() {
    let root = root_of(vec![entry(Some(""), Some(""))]);
    assert_eq!(file_lines(&root, None), vec!["=".to_string()]);
}

#[test]
fn duplicate_username_keeps_both_lines_in_file_mode() {
    let root = root_of(vec![
        entry(Some("user"), Some("first")),
        entry(Some("user"), Some("second")),
    ]);
    let lines = file_lines(&root, None);
    assert_eq!(
        lines,
        vec!["user=first".to_string(), "user=second".to_string()]
    );
}

#[test]
fn duplicate_username_keeps_last_value_in_shell_mode() {
    let root = root_of(vec![
        entry(Some("user"), Some("first")),
        entry(Some("user"), Some("second")),
    ]);
    let pairs = shell_pairs(&root, None, "sh");
    assert_eq!(
        pairs,
        vec![("user".to_string(), "second".to_string())]
    );
}

#[test]
fn nonmatching_sibling_groups_are_ignored() {
    let root = root_of(vec![
        group("other", vec![entry(Some("hidden"), Some("h"))]),
        group("db", vec![entry(Some("wanted"), Some("w"))]),
        group("Db", vec![entry(Some("cased"), Some("c"))]),
    ]);
    assert_eq!(file_lines(&root, Some("db")), vec!["wanted=w".to_string()]);
}

#[test]
fn pending_segment_skips_entries_along_the_way() {
    let root = root_of(vec![
        entry(Some("top"), Some("t")),
        group("db", vec![entry(Some("inner"), Some("i"))]),
    ]);
    assert_eq!(file_lines(&root, Some("db")), vec!["inner=i".to_string()]);
}

#[test]
fn empty_segment_from_leading_slash_is_literal() {
    let root = root_of(vec![
        group("", vec![group("a", vec![entry(Some("u"), Some("p"))])]),
        group("a", vec![entry(Some("plain"), Some("q"))]),
    ]);
    assert_eq!(file_lines(&root, Some("/a")), vec!["u=p".to_string()]);
}

#[test]
fn search_env_starts_at_given_position() {
    let root = root_of(vec![group("b", vec![entry(Some("u"), Some("p"))])]);
    let path = vec!["a".to_string(), "b".to_string()];
    let mut target = EnvTarget::File(FileTarget::new());
    search_env(&root, &path, 1, &mut target);
    match target {
        EnvTarget::File(f) => assert_eq!(f.lines, vec!["u=p".to_string()]),
        EnvTarget::Shell(_) => panic!("expected a file target"),
    }
}

#[test]
fn empty_string_path_collects_at_root() {
    let lines = file_lines(&sample_tree(), Some(""));
    assert_eq!(lines, vec!["bob=hunter2".to_string()]);
}

#[test]
fn shell_mode_follows_path_too() {
    let pairs = shell_pairs(&sample_tree(), Some("db"), "bash");
    assert_eq!(pairs, vec![("alice".to_string(), "secret".to_string())]);
}

#[test]
fn shell_target_remembers_program_name() {
    let target = EnvTarget::for_mode(&RunMode::ToShell("zsh".to_string()));
    match target {
        EnvTarget::Shell(s) => {
            assert_eq!(s.shell, "zsh");
            assert!(s.env.pairs.is_empty());
        }
        EnvTarget::File(_) => panic!("expected a shell target"),
    }
}

#[test]
fn file_content_is_one_line_per_pair() {
    let root = root_of(vec![
        entry(Some("k1"), Some("v1")),
        entry(Some("k2"), Some("v2")),
        entry(Some("k3"), Some("v3")),
    ]);
    let mut target = EnvTarget::File(FileTarget::new());
    extract_env(&root, None, &mut target);
    match target {
        EnvTarget::File(f) => {
            assert_eq!(f.lines.len(), 3);
            assert_eq!(f.content(), "k1=v1\nk2=v2\nk3=v3\n");
        }
        EnvTarget::Shell(_) => panic!("expected a file target"),
    }
}
