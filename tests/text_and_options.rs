use hyperfine::command::{Command, ParameterValue};
use hyperfine::dupes::{find_dupes, lex_less};
use hyperfine::error::OptionsError;
use hyperfine::numbers::{decimal_text_of, parse_decimal, unsigned_text};
use hyperfine::options::{
    color_override, failure_action, parse_time_unit, resolve_runs, select_output_style,
    should_run_again, CmdFailureAction, OutputStyleOption, RunBounds, Unit,
};
use hyperfine::scan::range_values;
use hyperfine::tokenize::tokenize;
use hyperfine::error::ParameterScanError;

#[test]
fn tokenize_splits_on_commas() {
    assert_eq!(tokenize("a,b,c"), vec!["a", "b", "c"]);
    assert_eq!(tokenize(""), vec![""]);
    assert_eq!(tokenize("a,,b,"), vec!["a", "", "b", ""]);
    assert_eq!(tokenize(" a , b"), vec![" a ", " b"]);
}

#[test]
fn tokenize_escapes() {
    assert_eq!(tokenize(r"1\,2,3"), vec!["1,2", "3"]);
    assert_eq!(tokenize(r"a\\,b"), vec![r"a\", "b"]);
    assert_eq!(tokenize(r"a\b"), vec![r"a\b"]);
    assert_eq!(tokenize(r"end\"), vec![r"end\"]);
}

#[test]
fn substitution_leaves_unknown_placeholders() {
    let params = vec![("x".to_string(), ParameterValue::Text("1".to_string()))];
    let c = Command::new_parametrized(None, "echo {x} {zzz} {x", params);
    assert_eq!(c.get_shell_command(), "echo 1 {zzz} {x");
    assert_eq!(c.get_name(), "echo 1 {zzz} {x");
}

#[test]
fn substitution_does_not_search_replacements() {
    let params = vec![
        ("a".to_string(), ParameterValue::Text("{b}".to_string())),
        ("b".to_string(), ParameterValue::Text("desired".to_string())),
    ];
    let c = Command::new_parametrized(Some("{a}-{b}"), "{a} {b}", params);
    assert_eq!(c.get_shell_command(), "{b} desired");
    assert_eq!(c.get_name(), "{b}-desired");
}

#[test]
fn command_without_parameters() {
    let c = Command::new(None, "sleep 1");
    assert_eq!(c.get_name(), "sleep 1");
    assert_eq!(c.get_shell_command(), "sleep 1");
    assert!(c.get_parameters().is_empty());
}

#[test]
fn dupes_are_sorted_and_unique() {
    let names: Vec<String> = ["z", "a", "z", "b", "a", "z", "ab"].iter().map(|s| s.to_string()).collect();
    assert_eq!(find_dupes(&names), vec!["a", "z"]);
    let none: Vec<String> = ["x", "y"].iter().map(|s| s.to_string()).collect();
    assert!(find_dupes(&none).is_empty());
}

#[test]
fn lexical_order() {
    assert!(lex_less("a", "b"));
    assert!(lex_less("a", "ab"));
    assert!(!lex_less("ab", "a"));
    assert!(!lex_less("a", "a"));
    assert!(lex_less("B", "a"));
}

#[test]
fn run_count_clamping() {
    assert_eq!(resolve_runs(Some(20), Some(10), None), Err(OptionsError::EmptyRunsRange));
}

#[test]
fn run_count_resolution() {
    assert_eq!(resolve_runs(None, None, None), Ok(RunBounds { min: 10, max: None }));
    assert_eq!(resolve_runs(Some(3), None, None), Ok(RunBounds { min: 3, max: None }));
    assert_eq!(resolve_runs(None, Some(5), None), Ok(RunBounds { min: 5, max: Some(5) }));
    assert_eq!(resolve_runs(None, Some(50), None), Ok(RunBounds { min: 10, max: Some(50) }));
    assert_eq!(resolve_runs(Some(2), Some(4), None), Ok(RunBounds { min: 2, max: Some(4) }));
    assert_eq!(resolve_runs(Some(20), Some(10), Some(7)), Ok(RunBounds { min: 7, max: Some(7) }));
    assert_eq!(resolve_runs(Some(1), None, None), Ok(RunBounds { min: 1, max: None }));
    assert_eq!(resolve_runs(None, None, Some(0)), Err(OptionsError::ZeroRuns));
    assert_eq!(resolve_runs(None, Some(0), None), Err(OptionsError::ZeroRuns));
    assert_eq!(resolve_runs(Some(0), None, None), Err(OptionsError::ZeroRuns));
}

#[test]
fn stop_condition() {
    let bounded = RunBounds { min: 2, max: Some(5) };
    let open = RunBounds { min: 2, max: None };
    assert!(should_run_again(0, bounded, 100, 10));
    assert!(should_run_again(1, bounded, 100, 10));
    assert!(should_run_again(2, bounded, 0, 10));
    assert!(!should_run_again(2, bounded, 10, 10));
    assert!(!should_run_again(5, bounded, 0, 10));
    assert!(should_run_again(2, open, 9, 10));
    assert!(!should_run_again(2, open, 10, 10));
    assert!(should_run_again(1, open, 1000, 10));
}

#[test]
fn output_style_selection() {
    assert_eq!(select_output_style(Some("full"), true, false), OutputStyleOption::Full);
    assert_eq!(select_output_style(Some("basic"), false, true), OutputStyleOption::Basic);
    assert_eq!(select_output_style(Some("nocolor"), false, true), OutputStyleOption::NoColor);
    assert_eq!(select_output_style(Some("color"), false, true), OutputStyleOption::Color);
    assert_eq!(select_output_style(Some("none"), false, true), OutputStyleOption::Disabled);
    assert_eq!(select_output_style(None, false, true), OutputStyleOption::Full);
    assert_eq!(select_output_style(None, true, true), OutputStyleOption::Basic);
    assert_eq!(select_output_style(None, false, false), OutputStyleOption::Basic);
    assert_eq!(select_output_style(Some("fancy"), false, true), OutputStyleOption::Full);
}

#[test]
fn colors_and_units() {
    assert_eq!(color_override(OutputStyleOption::Basic), Some(false));
    assert_eq!(color_override(OutputStyleOption::NoColor), Some(false));
    assert_eq!(color_override(OutputStyleOption::Full), Some(true));
    assert_eq!(color_override(OutputStyleOption::Color), Some(true));
    assert_eq!(color_override(OutputStyleOption::Disabled), None);
    assert_eq!(parse_time_unit(Some("millisecond")), Some(Unit::MilliSecond));
    assert_eq!(parse_time_unit(Some("second")), Some(Unit::Second));
    assert_eq!(parse_time_unit(Some("hour")), None);
    assert_eq!(parse_time_unit(None), None);
    assert_eq!(failure_action(true), CmdFailureAction::Ignore);
    assert_eq!(failure_action(false), CmdFailureAction::RaiseError);
}

#[test]
fn decimals_in_text() {
    assert_eq!(parse_decimal("42"), Some((42, 0)));
    assert_eq!(parse_decimal("-7"), Some((-7, 0)));
    assert_eq!(parse_decimal("+7"), Some((7, 0)));
    assert_eq!(parse_decimal("007"), Some((7, 0)));
    assert_eq!(parse_decimal("1.0"), Some((10, 1)));
    assert_eq!(parse_decimal("-0.25"), Some((-25, 2)));
    assert_eq!(parse_decimal("-9223372036854775808"), Some((i64::MIN, 0)));
    assert_eq!(parse_decimal("9223372036854775807"), Some((i64::MAX, 0)));
    assert_eq!(parse_decimal("9223372036854775808"), None);
    assert_eq!(parse_decimal("0.000000000000000001"), Some((1, 18)));
    assert_eq!(parse_decimal("0.0000000000000000001"), None);
    assert_eq!(parse_decimal("-"), None);
    assert_eq!(parse_decimal(""), None);
    assert_eq!(parse_decimal("1."), None);
    assert_eq!(parse_decimal(".5"), None);
    assert_eq!(parse_decimal("1.2.3"), None);
    assert_eq!(parse_decimal("1e3"), None);
    assert_eq!(parse_decimal(" 1"), None);
}

#[test]
fn decimals_rendered() {
    assert_eq!(unsigned_text(0), "0");
    assert_eq!(unsigned_text(1230), "1230");
    assert_eq!(decimal_text_of(0, 0), "0");
    assert_eq!(decimal_text_of(-45, 0), "-45");
    assert_eq!(decimal_text_of(10, 1), "1.0");
    assert_eq!(decimal_text_of(-5, 2), "-0.05");
    assert_eq!(decimal_text_of(123456, 3), "123.456");
    assert_eq!(decimal_text_of(i64::MIN as i128, 0), "-9223372036854775808");
}

#[test]
fn range_values_cases() {
    assert_eq!(range_values(1, 1, 5), Ok(vec![1]));
    assert_eq!(range_values(3, -3, -2), Ok(vec![3, 1, -1, -3]));
    assert_eq!(range_values(1, 2, 0), Err(ParameterScanError::ZeroStep));
    let (lo, hi) = (i64::MIN as i128, i64::MAX as i128);
    assert_eq!(range_values(lo, hi, hi), Ok(vec![lo, -1, hi - 1]));
    assert_eq!(range_values(lo, hi, 1), Err(ParameterScanError::TooLarge));
    assert_eq!(range_values(0, 99_999, 1).map(|v| v.len()), Ok(100_000));
}
