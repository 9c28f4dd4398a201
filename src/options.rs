//! Benchmark options that are decided from the command line.
use vstd::prelude::*;
use vstd::string::StrSliceExecFns;

use crate::error::OptionsError;

verus! {

/// The number of runs when none is asked for.
pub const DEFAULT_MIN_RUNS: u64 = 10;

/// Bounds on the number of measured runs; without a maximum the number is
/// bounded by the time budget alone.
#[derive(Debug, Clone, Copy, PartialEq, Eq, Structural)]
pub struct RunBounds {
    pub min: u64,
    pub max: Option<u64>,
}

/// The run bounds asked for by `--min-runs`, `--max-runs` and `--runs`
/// (which sets both), or `None` where the minimum exceeds the maximum. A
/// maximum alone lowers the default minimum to it where it is smaller.
pub open spec fn runs_spec(min_runs: Option<u64>, max_runs: Option<u64>, runs: Option<u64>) -> Option<RunBounds> {
    let (lo, hi) = match runs {
        Some(n) => (Some(n), Some(n)),
        None => (min_runs, max_runs),
    };
    match (lo, hi) {
        (Some(a), None) => Some(RunBounds { min: a, max: None }),
        (None, Some(b)) => Some(RunBounds { min: if b < DEFAULT_MIN_RUNS { b } else { DEFAULT_MIN_RUNS }, max: Some(b) }),
        (Some(a), Some(b)) => if a > b { None } else { Some(RunBounds { min: a, max: Some(b) }) },
        (None, None) => Some(RunBounds { min: DEFAULT_MIN_RUNS, max: None }),
    }
}

/// Resolves the run-count options (see `runs_spec`); at least one run is
/// always asked for.
pub fn resolve_runs(min_runs: Option<u64>, max_runs: Option<u64>, runs: Option<u64>) -> (r: Result<RunBounds, OptionsError>)
    ensures
        match runs_spec(min_runs, max_runs, runs) {
            Some(b) => if b.min == 0 {
                r matches Err(OptionsError::ZeroRuns)
            } else {
                r == Ok::<RunBounds, OptionsError>(b)
            },
            None => r matches Err(OptionsError::EmptyRunsRange),
        },
        r matches Ok(b) ==> b.min >= 1,
{
    match resolve_bounds(min_runs, max_runs, runs) {
        Some(b) => if b.min == 0 {
            Err(OptionsError::ZeroRuns)
        } else {
            Ok(b)
        },
        None => Err(OptionsError::EmptyRunsRange),
    }
}

/// The bounds of `runs_spec`, without the check that runs are asked for.
fn resolve_bounds(min_runs: Option<u64>, max_runs: Option<u64>, runs: Option<u64>) -> (r: Option<RunBounds>)
    ensures
        r == runs_spec(min_runs, max_runs, runs),
{
    let (lo, hi) = match runs {
        Some(n) => (Some(n), Some(n)),
        None => (min_runs, max_runs),
    };
    match (lo, hi) {
        (Some(a), None) => Some(RunBounds { min: a, max: None }),
        (None, Some(b)) => Some(RunBounds { min: if b < DEFAULT_MIN_RUNS { b } else { DEFAULT_MIN_RUNS }, max: Some(b) }),
        (Some(a), Some(b)) => if a > b {
            None
        } else {
            Some(RunBounds { min: a, max: Some(b) })
        },
        (None, None) => Some(RunBounds { min: DEFAULT_MIN_RUNS, max: None }),
    }
}

/// Whether another measured run is due after `runs_done` runs that took
/// `elapsed` in total: always below the minimum, never once the maximum is
/// reached, and otherwise only while the time budget is not spent.
pub open spec fn run_again_spec(runs_done: u64, bounds: RunBounds, elapsed: u64, budget: u64) -> bool {
    if runs_done < bounds.min {
        true
    } else {
        match bounds.max {
            Some(m) => runs_done < m && elapsed < budget,
            None => elapsed < budget,
        }
    }
}

/// Decides whether the benchmark driver measures another run (see
/// `run_again_spec`); times are in any one unit.
pub fn should_run_again(runs_done: u64, bounds: RunBounds, elapsed: u64, budget: u64) -> (r: bool)
    ensures
        r == run_again_spec(runs_done, bounds, elapsed, budget),
{
    if runs_done < bounds.min {
        true
    } else {
        match bounds.max {
            Some(m) => runs_done < m && elapsed < budget,
            None => elapsed < budget,
        }
    }
}

/// `--prepare` is given once, for every command, or once per command.
pub fn preparation_count_ok(n_prepare: usize, n_commands: usize) -> (r: bool)
    ensures
        r == (n_prepare <= 1 || n_prepare == n_commands),
{
    n_prepare <= 1 || n_prepare == n_commands
}

/// Which of `n_prepare` preparation commands goes with command `num`: the
/// one shared by all, or the one at the same position.
pub fn preparation_index(n_prepare: usize, num: usize) -> (r: usize)
    ensures
        r == (if n_prepare == 1 { 0 } else { num }),
{
    if n_prepare == 1 {
        0
    } else {
        num
    }
}

/// How results and progress are shown.
#[derive(Debug, Clone, Copy, PartialEq, Eq, Structural)]
pub enum OutputStyleOption {
    Full,
    Basic,
    NoColor,
    Color,
    Disabled,
}

/// The unit in which times are shown.
#[derive(Debug, Clone, Copy, PartialEq, Eq, Structural)]
pub enum Unit {
    Second,
    MilliSecond,
}

/// What a benchmark does when a command exits with a non-zero code.
#[derive(Debug, Clone, Copy, PartialEq, Eq, Structural)]
pub enum CmdFailureAction {
    RaiseError,
    Ignore,
}

/// Whether two strings hold the same characters.
pub fn str_equals(a: &str, b: &str) -> (r: bool)
    ensures
        r == (a@ == b@),
{
    let n = a.unicode_len();
    if n != b.unicode_len() {
        return false;
    }
    let mut i: usize = 0;
    while i < n
        invariant
            n == a@.len(),
            n == b@.len(),
            i <= n,
            forall|t: int| 0 <= t < i ==> a@[t] == b@[t],
        decreases n - i,
    {
        if a.get_char(i) != b.get_char(i) {
            return false;
        }
        i = i + 1;
    }
    assert(a@ =~= b@);
    true
}

/// The style named by `--style`, if the name is one of
/// `full`, `basic`, `nocolor`, `color` and `none`.
pub open spec fn style_named(s: Seq<char>) -> Option<OutputStyleOption> {
    if s == seq!['f', 'u', 'l', 'l'] {
        Some(OutputStyleOption::Full)
    } else if s == seq!['b', 'a', 's', 'i', 'c'] {
        Some(OutputStyleOption::Basic)
    } else if s == seq!['n', 'o', 'c', 'o', 'l', 'o', 'r'] {
        Some(OutputStyleOption::NoColor)
    } else if s == seq!['c', 'o', 'l', 'o', 'r'] {
        Some(OutputStyleOption::Color)
    } else if s == seq!['n', 'o', 'n', 'e'] {
        Some(OutputStyleOption::Disabled)
    } else {
        None
    }
}

/// The output style: the one named, else `Full` where output goes to a
/// terminal and the commands' own output is not shown, else `Basic`.
pub open spec fn output_style_spec(style: Option<Seq<char>>, show_output: bool, stdout_is_tty: bool) -> OutputStyleOption {
    match style {
        Some(s) if style_named(s) is Some => style_named(s)->Some_0,
        _ => if !show_output && stdout_is_tty {
            OutputStyleOption::Full
        } else {
            OutputStyleOption::Basic
        },
    }
}

/// Chooses the output style (see `output_style_spec`).
pub fn select_output_style(style: Option<&str>, show_output: bool, stdout_is_tty: bool) -> (r: OutputStyleOption)
    ensures
        r == output_style_spec(
            match style {
                Some(s) => Some(s@),
                None => None,
            },
            show_output,
            stdout_is_tty,
        ),
{
    proof {
        reveal_strlit("full");
        reveal_strlit("basic");
        reveal_strlit("nocolor");
        reveal_strlit("color");
        reveal_strlit("none");
    }
    if let Some(s) = style {
        if str_equals(s, "full") {
            assert("full"@ =~= seq!['f', 'u', 'l', 'l']);
            return OutputStyleOption::Full;
        } else if str_equals(s, "basic") {
            assert("basic"@ =~= seq!['b', 'a', 's', 'i', 'c']);
            return OutputStyleOption::Basic;
        } else if str_equals(s, "nocolor") {
            assert("nocolor"@ =~= seq!['n', 'o', 'c', 'o', 'l', 'o', 'r']);
            return OutputStyleOption::NoColor;
        } else if str_equals(s, "color") {
            assert("color"@ =~= seq!['c', 'o', 'l', 'o', 'r']);
            return OutputStyleOption::Color;
        } else if str_equals(s, "none") {
            assert("none"@ =~= seq!['n', 'o', 'n', 'e']);
            return OutputStyleOption::Disabled;
        }
        assert("full"@ =~= seq!['f', 'u', 'l', 'l']);
        assert("basic"@ =~= seq!['b', 'a', 's', 'i', 'c']);
        assert("nocolor"@ =~= seq!['n', 'o', 'c', 'o', 'l', 'o', 'r']);
        assert("color"@ =~= seq!['c', 'o', 'l', 'o', 'r']);
        assert("none"@ =~= seq!['n', 'o', 'n', 'e']);
    }
    if !show_output && stdout_is_tty {
        OutputStyleOption::Full
    } else {
        OutputStyleOption::Basic
    }
}

/// Whether terminal colors are forced on (`Some(true)`), forced off
/// (`Some(false)`) or left alone (`None`) for a style.
pub fn color_override(style: OutputStyleOption) -> (r: Option<bool>)
    ensures
        r == match style {
            OutputStyleOption::Basic | OutputStyleOption::NoColor => Some(false),
            OutputStyleOption::Full | OutputStyleOption::Color => Some(true),
            OutputStyleOption::Disabled => None::<bool>,
        },
{
    match style {
        OutputStyleOption::Basic | OutputStyleOption::NoColor => Some(false),
        OutputStyleOption::Full | OutputStyleOption::Color => Some(true),
        OutputStyleOption::Disabled => None,
    }
}

/// The unit named by `--time-unit`: `millisecond` or `second`; any other
/// text, or none, leaves the unit to be chosen automatically.
pub open spec fn time_unit_spec(s: Option<Seq<char>>) -> Option<Unit> {
    match s {
        Some(t) => if t == seq!['m', 'i', 'l', 'l', 'i', 's', 'e', 'c', 'o', 'n', 'd'] {
            Some(Unit::MilliSecond)
        } else if t == seq!['s', 'e', 'c', 'o', 'n', 'd'] {
            Some(Unit::Second)
        } else {
            None
        },
        None => None,
    }
}

/// Reads the display unit (see `time_unit_spec`).
pub fn parse_time_unit(s: Option<&str>) -> (r: Option<Unit>)
    ensures
        r == time_unit_spec(
            match s {
                Some(t) => Some(t@),
                None => None,
            },
        ),
{
    proof {
        reveal_strlit("millisecond");
        reveal_strlit("second");
        assert("millisecond"@ =~= seq!['m', 'i', 'l', 'l', 'i', 's', 'e', 'c', 'o', 'n', 'd']);
        assert("second"@ =~= seq!['s', 'e', 'c', 'o', 'n', 'd']);
    }
    match s {
        Some(t) => if str_equals(t, "millisecond") {
            Some(Unit::MilliSecond)
        } else if str_equals(t, "second") {
            Some(Unit::Second)
        } else {
            None
        },
        None => None,
    }
}

/// The failure action chosen by `--ignore-failure`.
pub fn failure_action(ignore_failure: bool) -> (r: CmdFailureAction)
    ensures
        r == (if ignore_failure { CmdFailureAction::Ignore } else { CmdFailureAction::RaiseError }),
{
    if ignore_failure {
        CmdFailureAction::Ignore
    } else {
        CmdFailureAction::RaiseError
    }
}

} // verus!
