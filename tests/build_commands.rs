use hyperfine::command::{Command, ParameterValue};
use hyperfine::commands::{build_commands, get_plain_commands, BuildError, ParameterScan};
use hyperfine::error::{OptionsError, ParameterScanError};
use hyperfine::parameters::{cross_size_checked, get_parameter_list_commands};

fn strings(v: &[&str]) -> Vec<String> {
    v.iter().map(|s| s.to_string()).collect()
}

fn lists(v: &[(&str, &str)]) -> Vec<(String, String)> {
    v.iter().map(|(a, b)| (a.to_string(), b.to_string())).collect()
}

fn scan(name: &str, start: &str, end: &str, step: Option<&str>) -> Option<ParameterScan> {
    Some(ParameterScan {
        name: name.to_string(),
        start: start.to_string(),
        end: end.to_string(),
        step: step.map(|s| s.to_string()),
    })
}

#[test]
fn test_build_commands_cross_product() {
    let result = build_commands(
        &vec![],
        &strings(&["echo {par1} {par2}", "printf '%s\n' {par1} {par2}"]),
        &None,
        &lists(&[("par1", "a,b"), ("par2", "z,y")]),
    )
    .unwrap();

    let pv = |s: &str| ParameterValue::Text(s.to_string());
    let cmd = |cmd: usize, par1: &str, par2: &str| {
        let expression = ["echo {par1} {par2}", "printf '%s\n' {par1} {par2}"][cmd];
        let params = vec![("par1".to_string(), pv(par1)), ("par2".to_string(), pv(par2))];
        Command::new_parametrized(None, expression, params)
    };
    let expected = vec![
        cmd(0, "a", "z"),
        cmd(1, "a", "z"),
        cmd(0, "b", "z"),
        cmd(1, "b", "z"),
        cmd(0, "a", "y"),
        cmd(1, "a", "y"),
        cmd(0, "b", "y"),
        cmd(1, "b", "y"),
    ];
    assert_eq!(result, expected);
}

#[test]
fn test_build_parameter_list_commands() {
    let commands = build_commands(
        &strings(&["name-{foo}"]),
        &strings(&["echo {foo}"]),
        &None,
        &lists(&[("foo", "1,2")]),
    )
    .unwrap();
    assert_eq!(commands.len(), 2);
    assert_eq!(commands[0].get_name(), "name-1");
    assert_eq!(commands[1].get_name(), "name-2");
    assert_eq!(commands[0].get_shell_command(), "echo 1");
    assert_eq!(commands[1].get_shell_command(), "echo 2");
}

#[test]
fn test_build_parameter_range_commands() {
    let commands = build_commands(
        &strings(&["name-{val}"]),
        &strings(&["echo {val}"]),
        &scan("val", "1", "2", Some("1")),
        &vec![],
    )
    .unwrap();
    assert_eq!(commands.len(), 2);
    assert_eq!(commands[0].get_name(), "name-1");
    assert_eq!(commands[1].get_name(), "name-2");
    assert_eq!(commands[0].get_shell_command(), "echo 1");
    assert_eq!(commands[1].get_shell_command(), "echo 2");
}

#[test]
fn cross_product_size_is_product_of_dimensions() {
    let commands = build_commands(
        &vec![],
        &strings(&["a {x} {y} {z}", "b {x} {y} {z}"]),
        &None,
        &lists(&[("x", "1,2,3"), ("y", "p,q"), ("z", "u,v,w,t")]),
    )
    .unwrap();
    assert_eq!(commands.len(), 2 * 3 * 2 * 4);
    assert_eq!(commands[0].get_shell_command(), "a 1 p u");
    assert_eq!(commands[1].get_shell_command(), "b 1 p u");
    assert_eq!(commands[2].get_shell_command(), "a 2 p u");
    assert_eq!(commands[6].get_shell_command(), "a 1 q u");
    assert_eq!(commands[47].get_shell_command(), "b 3 q t");
}

#[test]
fn empty_parameter_list_gives_no_commands() {
    let params = vec![
        ("x".to_string(), vec![ParameterValue::Text("1".to_string())]),
        ("y".to_string(), vec![]),
    ];
    let commands = get_parameter_list_commands(&vec![], &strings(&["echo {x} {y}"]), &params);
    assert_eq!(commands, Ok(vec![]));
    assert_eq!(cross_size_checked(1, &params), Some(0));
}

#[test]
fn shared_command_name_is_substituted() {
    let commands = build_commands(
        &strings(&["run-{n}"]),
        &strings(&["sleep {n}"]),
        &None,
        &lists(&[("n", "0.1,0.2,0.3")]),
    )
    .unwrap();
    let names: Vec<String> = commands.iter().map(|c| c.get_name()).collect();
    assert_eq!(names, vec!["run-0.1", "run-0.2", "run-0.3"]);
}

#[test]
fn wrong_command_name_count_is_an_error() {
    let result = build_commands(
        &strings(&["a", "b"]),
        &strings(&["echo {x}"]),
        &None,
        &lists(&[("x", "1,2,3")]),
    );
    assert_eq!(
        result,
        Err(BuildError::Options(OptionsError::UnexpectedCommandNameCount(2, 3)))
    );
}

#[test]
fn one_name_per_command_is_accepted() {
    let commands = build_commands(
        &strings(&["a", "b", "c"]),
        &strings(&["echo {x}"]),
        &None,
        &lists(&[("x", "1,2,3")]),
    )
    .unwrap();
    assert_eq!(commands[2].get_name(), "c");
    assert_eq!(commands[2].get_shell_command(), "echo 3");
}

#[test]
fn duplicate_parameter_names_are_an_error() {
    let result = build_commands(
        &vec![],
        &strings(&["echo {b} {a}"]),
        &None,
        &lists(&[("b", "1"), ("a", "2"), ("b", "3"), ("a", "4"), ("c", "5")]),
    );
    assert_eq!(
        result,
        Err(BuildError::Options(OptionsError::DuplicateParameterNames(strings(&["a", "b"]))))
    );
}

#[test]
fn plain_commands_take_names_by_position() {
    let commands = get_plain_commands(&strings(&["first"]), &strings(&["ls", "pwd"])).unwrap();
    assert_eq!(commands.len(), 2);
    assert_eq!(commands[0].get_name(), "first");
    assert_eq!(commands[1].get_name(), "pwd");
    assert_eq!(commands[1].get_shell_command(), "pwd");
}

#[test]
fn too_many_command_names_is_an_error() {
    let result = build_commands(&strings(&["a", "b"]), &strings(&["ls"]), &None, &vec![]);
    assert_eq!(result, Err(BuildError::Options(OptionsError::TooManyCommandNames(1))));
}

#[test]
fn scan_counts_down_with_negative_step() {
    let commands =
        build_commands(&vec![], &strings(&["echo {v}"]), &scan("v", "5", "-1", Some("-3")), &vec![])
            .unwrap();
    let lines: Vec<String> = commands.iter().map(|c| c.get_shell_command()).collect();
    assert_eq!(lines, vec!["echo 5", "echo 2", "echo -1"]);
    assert_eq!(
        commands[1].get_parameters(),
        &vec![("v".to_string(), ParameterValue::Numeric("2".to_string()))]
    );
}

#[test]
fn scan_default_step_is_one() {
    let commands =
        build_commands(&vec![], &strings(&["echo {v}"]), &scan("v", "-2", "1", None), &vec![]).unwrap();
    let lines: Vec<String> = commands.iter().map(|c| c.get_shell_command()).collect();
    assert_eq!(lines, vec!["echo -2", "echo -1", "echo 0", "echo 1"]);
}

#[test]
fn scan_stops_before_passing_the_end() {
    let commands =
        build_commands(&vec![], &strings(&["echo {v}"]), &scan("v", "0", "10", Some("4")), &vec![])
            .unwrap();
    let lines: Vec<String> = commands.iter().map(|c| c.get_shell_command()).collect();
    assert_eq!(lines, vec!["echo 0", "echo 4", "echo 8"]);
}

#[test]
fn scan_errors() {
    let run = |start: &str, end: &str, step: Option<&str>| {
        build_commands(&vec![], &strings(&["echo {v}"]), &scan("v", start, end, step), &vec![])
    };
    assert_eq!(
        run("1", "x", None),
        Err(BuildError::Scan(ParameterScanError::InvalidNumber("x".to_string())))
    );
    assert_eq!(
        run("1e5", "2", None),
        Err(BuildError::Scan(ParameterScanError::InvalidNumber("1e5".to_string())))
    );
    assert_eq!(run("1.5", "2", None), Err(BuildError::Scan(ParameterScanError::StepRequired)));
    assert_eq!(run("1", "2.0", None), Err(BuildError::Scan(ParameterScanError::StepRequired)));
    assert_eq!(
        run("1", "2", Some("")),
        Err(BuildError::Scan(ParameterScanError::InvalidNumber("".to_string())))
    );
    assert_eq!(run("1", "5", Some("0")), Err(BuildError::Scan(ParameterScanError::ZeroStep)));
    assert_eq!(run("5", "1", None), Err(BuildError::Scan(ParameterScanError::StepDirection)));
    assert_eq!(run("1", "5", Some("-1")), Err(BuildError::Scan(ParameterScanError::StepDirection)));
    assert_eq!(
        run("-9223372036854775808", "9223372036854775807", None),
        Err(BuildError::Scan(ParameterScanError::TooLarge))
    );
    assert_eq!(run("0", "100000", None).unwrap().len(), 100001);
}

#[test]
fn scan_name_count_error() {
    let result = build_commands(
        &strings(&["a", "b"]),
        &strings(&["echo {v}"]),
        &scan("v", "1", "3", None),
        &vec![],
    );
    assert_eq!(
        result,
        Err(BuildError::Scan(ParameterScanError::UnexpectedCommandNameCount(2, 3)))
    );
}

#[test]
fn scan_over_decimals_keeps_their_form() {
    let lines = |start: &str, end: &str, step: Option<&str>| -> Vec<String> {
        build_commands(&vec![], &strings(&["echo {v}"]), &scan("v", start, end, step), &vec![])
            .unwrap()
            .iter()
            .map(|c| c.get_shell_command())
            .collect()
    };
    assert_eq!(lines("1.0", "2", Some("0.5")), vec!["echo 1.0", "echo 1.5", "echo 2.0"]);
    assert_eq!(lines("1", "2", Some("1")), vec!["echo 1", "echo 2"]);
    assert_eq!(lines("1.0", "2", Some("1")), vec!["echo 1.0", "echo 2.0"]);
    assert_eq!(lines("0", "-0.2", Some("-0.1")), vec!["echo 0.0", "echo -0.1", "echo -0.2"]);
}

#[test]
fn parameter_space_too_large_is_an_error() {
    let lists: Vec<(String, String)> = (0..65).map(|i| (format!("p{}", i), "a,b".to_string())).collect();
    let result = build_commands(&vec![], &strings(&["echo"]), &None, &lists);
    assert_eq!(result, Err(BuildError::Options(OptionsError::TooManyCommands)));
    let fits: Vec<(String, String)> = (0..10).map(|i| (format!("p{}", i), "a,b".to_string())).collect();
    assert_eq!(build_commands(&vec![], &strings(&["echo"]), &None, &fits).unwrap().len(), 1024);
}
