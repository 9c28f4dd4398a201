use hyperfine::commands::build_commands;
use hyperfine::commands::BuildError;
use hyperfine::error::OptionsError;
use hyperfine::numbers::parse_count;
use hyperfine::options::{preparation_count_ok, preparation_index};
use hyperfine::shell::Shell;

#[test]
fn shell_parse() {
    assert_eq!(Shell::parse("none"), Ok(Shell::Direct));
    assert_eq!(
        Shell::parse("bash --norc"),
        Ok(Shell::Default(vec!["bash".to_string(), "--norc".to_string()]))
    );
    assert_eq!(
        Shell::parse("'my shell' -x"),
        Ok(Shell::Default(vec!["my shell".to_string(), "-x".to_string()]))
    );
    assert_eq!(Shell::parse(""), Err(OptionsError::UnparsableShell("".to_string())));
    assert_eq!(Shell::parse("sh 'open"), Err(OptionsError::UnparsableShell("sh 'open".to_string())));
}

#[test]
fn command_argv_through_shell_or_direct() {
    let sh = Shell::Default(vec!["sh".to_string()]);
    assert_eq!(sh.command_argv("echo 'a b'"), Some(vec!["sh".to_string(), "-c".to_string(), "echo 'a b'".to_string()]));
    let direct = Shell::Direct;
    assert_eq!(
        direct.command_argv("echo 'a b' c"),
        Some(vec!["echo".to_string(), "a b".to_string(), "c".to_string()])
    );
    assert_eq!(direct.command_argv("   "), None);
    assert_eq!(direct.command_argv("echo \"x"), None);
}

#[test]
fn counts() {
    assert_eq!(parse_count("10"), Some(10));
    assert_eq!(parse_count("+3"), Some(3));
    assert_eq!(parse_count("18446744073709551615"), Some(u64::MAX));
    assert_eq!(parse_count("18446744073709551616"), None);
    assert_eq!(parse_count("-1"), None);
    assert_eq!(parse_count(""), None);
    assert_eq!(parse_count("+"), None);
    assert_eq!(parse_count("1 "), None);
}

#[test]
fn preparation_counts() {
    assert!(preparation_count_ok(0, 3));
    assert!(preparation_count_ok(1, 3));
    assert!(preparation_count_ok(3, 3));
    assert!(!preparation_count_ok(2, 3));
    assert_eq!(preparation_index(1, 2), 0);
    assert_eq!(preparation_index(3, 2), 2);
}

#[test]
fn duplicate_names_reported_before_size() {
    let mut lists: Vec<(String, String)> = (0..65).map(|i| (format!("p{}", i), "a,b".to_string())).collect();
    lists.push(("p0".to_string(), "c".to_string()));
    let result = build_commands(&vec![], &vec!["echo".to_string()], &None, &lists);
    assert_eq!(
        result,
        Err(BuildError::Options(OptionsError::DuplicateParameterNames(vec!["p0".to_string()])))
    );
}
