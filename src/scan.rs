//! Parameter scans: a command run over an arithmetic range of decimals.
use vstd::prelude::*;
use vstd::arithmetic::div_mod::lemma_fundamental_div_mod;
use vstd::string::StringExecFns;

use crate::command::{Command, ParameterValue, ValueView};
use crate::dupes::is_duplicated;
use crate::error::{OptionsError, ParameterScanError};
use crate::numbers::{
    decimal_text, decimal_text_of, lemma_pow10_monotone, parse_decimal,
    parsed_decimal, pow10, pow10_exec, MAX_SCALE,
};
use crate::parameters::{
    cross_command, cross_size, dimensions, get_parameter_list_commands, list_names, lists_view,
    space_size,
};
use crate::text::strings_view;

verus! {

/// The step leads away from the end of the range.
pub open spec fn leads_away(start: int, end: int, step: int) -> bool {
    (end > start && step < 0) || (end < start && step > 0)
}

pub open spec fn abs(x: int) -> int {
    if x < 0 {
        -x
    } else {
        x
    }
}

/// The number of values from `start` on, `step` apart, that do not pass
/// `end`.
pub open spec fn scan_len(start: int, end: int, step: int) -> int {
    abs(end - start) / abs(step) + 1
}

/// The values of a scan: `start`, `start + step`, ... up to and including
/// `end` where a step lands on it.
pub open spec fn scan_values(start: int, end: int, step: int) -> Seq<int> {
    Seq::new(scan_len(start, end, step) as nat, |i: int| start + i * step)
}

/// Bound on the scaled integers of a scan, beyond what decimals with `i64`
/// digits and at most `MAX_SCALE` fraction digits reach.
pub const SCAN_BOUND: i128 = 0x2000_0000_0000_0000_0000_0000_0000_0000;

/// The values of the scan from `start` to `end` (see `scan_values`).
pub fn range_values(start: i128, end: i128, step: i128) -> (r: Result<Vec<i128>, ParameterScanError>)
    requires
        -SCAN_BOUND <= start <= SCAN_BOUND,
        -SCAN_BOUND <= end <= SCAN_BOUND,
        -SCAN_BOUND <= step <= SCAN_BOUND,
    ensures
        match r {
            Err(ParameterScanError::ZeroStep) => step == 0,
            Err(ParameterScanError::StepDirection) => step != 0 && leads_away(
                start as int,
                end as int,
                step as int,
            ),
            Err(ParameterScanError::TooLarge) => step != 0 && !leads_away(
                start as int,
                end as int,
                step as int,
            ) && scan_len(start as int, end as int, step as int) > usize::MAX,
            Err(_) => false,
            Ok(v) => step != 0 && !leads_away(start as int, end as int, step as int) && scan_len(
                start as int,
                end as int,
                step as int,
            ) <= usize::MAX && v@.map_values(|x: i128| x as int) == scan_values(
                start as int,
                end as int,
                step as int,
            ),
        },
{
    if step == 0 {
        return Err(ParameterScanError::ZeroStep);
    }
    if (end > start && step < 0) || (end < start && step > 0) {
        return Err(ParameterScanError::StepDirection);
    }
    let dist: u128 = if end >= start {
        (end - start) as u128
    } else {
        (start - end) as u128
    };
    let step_abs: u128 = if step > 0 {
        step as u128
    } else {
        (0 - step) as u128
    };
    let q = dist / step_abs;
    if q >= usize::MAX as u128 {
        return Err(ParameterScanError::TooLarge);
    }
    let count = (q + 1) as usize;
    proof {
        lemma_fundamental_div_mod(dist as int, step_abs as int);
        let dd = dist as int;
        let sa = step_abs as int;
        let qq = q as int;
        assert(qq * sa <= dd) by (nonlinear_arith)
            requires
                dd == sa * (dd / sa) + (dd % sa),
                qq == dd / sa,
                sa > 0,
                dd % sa >= 0,
        ;
    }
    let mut values: Vec<i128> = Vec::new();
    let mut i: usize = 0;
    while i < count
        invariant
            count == q + 1,
            q * step_abs <= dist,
            -SCAN_BOUND <= start <= SCAN_BOUND,
            -SCAN_BOUND <= end <= SCAN_BOUND,
            step_abs as int == abs(step as int),
            dist as int == abs(end - start),
            step != 0,
            !leads_away(start as int, end as int, step as int),
            i <= count,
            values@.len() == i,
            forall|t: int| 0 <= t < i ==> values@[t] == start + t * step,
        decreases count - i,
    {
        proof {
            let ii = i as int;
            let qq = q as int;
            let sa = step_abs as int;
            assert(ii * sa <= qq * sa) by (nonlinear_arith)
                requires
                    0 <= ii <= qq,
                    sa >= 0,
            ;
            if step > 0 {
                assert(ii * step == ii * sa);
            } else {
                assert(ii * step == -(ii * sa)) by (nonlinear_arith)
                    requires
                        step == -sa,
                ;
            }
        }
        let v = start + (i as i128) * step;
        values.push(v);
        i = i + 1;
    }
    assert(values@.map_values(|x: i128| x as int) =~= scan_values(start as int, end as int, step as int));
    Ok(values)
}

/// The parameter list of a scan: the values `v / 10^k` in their decimal
/// form with `k` fraction digits.
pub open spec fn scan_list(name: Seq<char>, values: Seq<int>, k: nat) -> Seq<(Seq<char>, Seq<ValueView>)> {
    seq![(name, values.map_values(|v: int| ValueView::Numeric(decimal_text(v, k))))]
}

/// The bounds and step of a scan as integers over a common `10^k`; the
/// first text that is not a decimal; or a step left out where a bound has
/// fraction digits.
pub enum ScanInput {
    Valid(int, int, int, nat),
    Invalid(Seq<char>),
    StepMissing,
}

pub open spec fn max_nat(a: nat, b: nat) -> nat {
    if a < b {
        b
    } else {
        a
    }
}

/// `m / 10^k` written over `10^to`.
pub open spec fn rescaled(m: int, k: nat, to: nat) -> int {
    m * pow10((to - k) as nat)
}

/// Reads the bounds and the step (1 where none is given) of a scan; the
/// values keep as many fraction digits as the most precise of the three.
pub open spec fn read_scan_input(start: Seq<char>, end: Seq<char>, step: Option<Seq<char>>) -> ScanInput {
    match (parsed_decimal(start), parsed_decimal(end)) {
        (None, _) => ScanInput::Invalid(start),
        (Some(_), None) => ScanInput::Invalid(end),
        (Some((a, ka)), Some((b, kb))) => match step {
            None => if ka == 0 && kb == 0 {
                ScanInput::Valid(a as int, b as int, 1, 0)
            } else {
                ScanInput::StepMissing
            },
            Some(t) => match parsed_decimal(t) {
                None => ScanInput::Invalid(t),
                Some((c, kc)) => {
                    let k = max_nat(max_nat(ka as nat, kb as nat), kc as nat);
                    ScanInput::Valid(
                        rescaled(a as int, ka as nat, k),
                        rescaled(b as int, kb as nat, k),
                        rescaled(c as int, kc as nat, k),
                        k,
                    )
                },
            },
        },
    }
}

/// Written over the same power of ten, a number is unchanged.
pub proof fn lemma_rescaled_unchanged(m: int)
    ensures
        rescaled(m, 0, 0) == m,
{
    assert(pow10(0) == 1);
    let p = pow10(0) as int;
    assert(m * p == m) by (nonlinear_arith)
        requires
            p == 1,
    ;
}

/// `m / 10^k` written over `10^to`.
fn rescale(m: i64, k: u32, to: u32) -> (r: i128)
    requires
        k <= to <= MAX_SCALE,
    ensures
        r == rescaled(m as int, k as nat, to as nat),
        -SCAN_BOUND <= r <= SCAN_BOUND,
{
    let p = pow10_exec(to - k);
    proof {
        lemma_pow10_monotone((to - k) as nat, 18);
        reveal_with_fuel(pow10, 19);
        assert(pow10(18) == 1_000_000_000_000_000_000);
        let mm = m as int;
        let pp = p as int;
        assert(-0x8000_0000_0000_0000 * 1_000_000_000_000_000_000 <= mm * pp <= 0x8000_0000_0000_0000
            * 1_000_000_000_000_000_000) by (nonlinear_arith)
            requires
                -0x8000_0000_0000_0000 <= mm <= 0x8000_0000_0000_0000,
                0 <= pp <= 1_000_000_000_000_000_000,
        ;
    }
    (m as i128) * (p as i128)
}

pub open spec fn opt_view(o: Option<&str>) -> Option<Seq<char>> {
    match o {
        Some(s) => Some(s@),
        None => None,
    }
}

/// The values of the scan as parameter values with `k` fraction digits.
fn numeric_values(values: &Vec<i128>, k: u32) -> (r: Vec<ParameterValue>)
    requires
        k <= MAX_SCALE,
        forall|i: int| 0 <= i < values@.len() ==> values@[i] > i128::MIN,
    ensures
        r@.map_values(|x: ParameterValue| x@) == values@.map_values(|x: i128| x as int).map_values(
            |v: int| ValueView::Numeric(decimal_text(v, k as nat)),
        ),
{
    let mut r: Vec<ParameterValue> = Vec::new();
    let mut i: usize = 0;
    while i < values.len()
        invariant
            i <= values@.len(),
            k <= MAX_SCALE,
            forall|i: int| 0 <= i < values@.len() ==> values@[i] > i128::MIN,
            r@.map_values(|x: ParameterValue| x@) =~= values@.take(i as int).map_values(
                |x: i128| x as int,
            ).map_values(|v: int| ValueView::Numeric(decimal_text(v, k as nat))),
        decreases values@.len() - i,
    {
        let t = decimal_text_of(values[i], k);
        let ghost before = r@.map_values(|x: ParameterValue| x@);
        r.push(ParameterValue::Numeric(t));
        assert(r@.map_values(|x: ParameterValue| x@) =~= before.push(
            ValueView::Numeric(decimal_text(values@[i as int] as int, k as nat)),
        ));
        assert(values@.take(i + 1) =~= values@.take(i as int).push(values@[i as int]));
        i = i + 1;
    }
    assert(values@.take(i as int) =~= values@);
    r
}

/// What `get_parameter_scan_commands` returns: the first text that is not
/// a decimal; else an error for a missing step where a bound has fraction
/// digits, for a zero step, for a step that leads away from the end, or for
/// a scan too large; else what the cross product of the commands with the
/// scan's values gives.
pub open spec fn scan_outcome(
    names: Seq<Seq<char>>,
    cmds: Seq<Seq<char>>,
    name: Seq<char>,
    start: Seq<char>,
    end: Seq<char>,
    step: Option<Seq<char>>,
    r: Result<Vec<Command>, ParameterScanError>,
) -> bool {
    match read_scan_input(start, end, step) {
        ScanInput::Invalid(t) => r matches Err(ParameterScanError::InvalidNumber(u)) && u@ == t,
        ScanInput::StepMissing => r matches Err(ParameterScanError::StepRequired),
        ScanInput::Valid(a, b, s, k) => {
            let lists = scan_list(name, scan_values(a, b, s), k);
            let size = cross_size(cmds.len(), lists);
            if s == 0 {
                r matches Err(ParameterScanError::ZeroStep)
            } else if leads_away(a, b, s) {
                r matches Err(ParameterScanError::StepDirection)
            } else if scan_len(a, b, s) > usize::MAX || size > usize::MAX {
                r matches Err(ParameterScanError::TooLarge)
            } else if size > 0 && names.len() > 1 && names.len() != size {
                r matches Err(ParameterScanError::UnexpectedCommandNameCount(given, built))
                    && given == names.len() && built == size
            } else {
                r matches Ok(v) && v@.len() == size && forall|j: int|
                    0 <= j < size ==> #[trigger] v@[j]@ == cross_command(
                        j as nat,
                        names,
                        cmds,
                        lists,
                    )
            }
        },
    }
}

/// The commands of a scan of the parameter `name` from `start` to `end`
/// in steps of `step` (1 where none is given), crossed with `commands` as
/// `get_parameter_list_commands` does: bounds and step must be decimals
/// (the step may be left out only where both bounds are integers), the step
/// non-zero and leading towards the end; a scan yields as many values and
/// commands as a vector can hold. Each
/// value is written with as many fraction digits as the most precise of the
/// bounds and step, so `1` and `1.0` stay distinct.
pub fn get_parameter_scan_commands(
    command_names: &Vec<String>,
    commands: &Vec<String>,
    name: &str,
    start: &str,
    end: &str,
    step: Option<&str>,
) -> (r: Result<Vec<Command>, ParameterScanError>)
    ensures
        scan_outcome(
            strings_view(command_names@),
            strings_view(commands@),
            name@,
            start@,
            end@,
            opt_view(step),
            r,
        ),
{
    let (a, ka) = match parse_decimal(start) {
        Some(v) => v,
        None => {
            return Err(ParameterScanError::InvalidNumber(String::from_str(start)));
        },
    };
    let (b, kb) = match parse_decimal(end) {
        Some(v) => v,
        None => {
            return Err(ParameterScanError::InvalidNumber(String::from_str(end)));
        },
    };
    let (c, kc) = match step {
        Some(t) => match parse_decimal(t) {
            Some(v) => v,
            None => {
                return Err(ParameterScanError::InvalidNumber(String::from_str(t)));
            },
        },
        None => {
            if ka != 0 || kb != 0 {
                return Err(ParameterScanError::StepRequired);
            }
            (1i64, 0u32)
        },
    };
    let k = if ka < kb { kb } else { ka };
    let k = if k < kc { kc } else { k };
    let a2 = rescale(a, ka, k);
    let b2 = rescale(b, kb, k);
    let c2 = rescale(c, kc, k);
    proof {
        assert(parsed_decimal(start@) == Some((a, ka)));
        assert(parsed_decimal(end@) == Some((b, kb)));
        assert(k as nat == max_nat(max_nat(ka as nat, kb as nat), kc as nat));
        assert(a2 == rescaled(a as int, ka as nat, k as nat));
        assert(b2 == rescaled(b as int, kb as nat, k as nat));
        assert(c2 == rescaled(c as int, kc as nat, k as nat));
        match step {
            Some(t) => {
                assert(opt_view(step) == Some(t@));
                assert(parsed_decimal(t@) == Some((c, kc)));
            },
            None => {
                assert(pow10(0) == 1);
                assert(k == 0 && ka == 0 && kb == 0 && kc == 0 && c == 1);
                lemma_rescaled_unchanged(a as int);
                lemma_rescaled_unchanged(b as int);
                lemma_rescaled_unchanged(1);
            },
        }
    }
    proof {
        assert(read_scan_input(start@, end@, opt_view(step)) == ScanInput::Valid(
            a2 as int,
            b2 as int,
            c2 as int,
            k as nat,
        ));
    }
    let values = match range_values(a2, b2, c2) {
        Ok(v) => v,
        Err(e) => {
            return Err(e);
        },
    };
    let ghost vals = values@.map_values(|x: i128| x as int);
    let count = values.len();
    proof {
        assert(vals == scan_values(a2 as int, b2 as int, c2 as int));
        assert(read_scan_input(start@, end@, opt_view(step)) == ScanInput::Valid(
            a2 as int,
            b2 as int,
            c2 as int,
            k as nat,
        ));
        assert forall|i: int| 0 <= i < values@.len() implies values@[i] > i128::MIN by {
            assert(vals[i] == a2 + i * c2);
            let ii = i as int;
            let sc = c2 as int;
            let d = abs(b2 - a2);
            let q = d / abs(sc);
            assert(ii <= q);
            assert(0 <= ii * abs(sc) <= d) by (nonlinear_arith)
                requires
                    0 <= ii <= q,
                    q == d / abs(sc),
                    abs(sc) > 0,
                    d >= 0,
            ;
            if sc < 0 {
                assert(ii * sc == -(ii * abs(sc))) by (nonlinear_arith)
                    requires
                        sc < 0,
                ;
            } else {
                assert(ii * sc == ii * abs(sc));
            }
        }
    }
    let params = vec![(String::from_str(name), numeric_values(&values, k))];
    let ghost lists = lists_view(params@);
    proof {
        assert(lists =~= scan_list(name@, vals, k as nat));
        let dims = dimensions(commands@.len(), lists);
        assert(dims =~= seq![commands@.len() as nat, count as nat]);
        assert(dims.drop_last() =~= seq![commands@.len() as nat]);
        assert(dims.drop_last().drop_last() =~= Seq::<nat>::empty());
        assert(space_size(Seq::<nat>::empty()) == 1);
        let d1 = dims.drop_last();
        assert(d1.last() == commands@.len());
        assert(space_size(d1) == space_size(d1.drop_last()) * d1.last());
        assert(space_size(dims.drop_last()) == commands@.len());
        assert(space_size(dims) == space_size(dims.drop_last()) * count);
        assert forall|x: Seq<char>| !is_duplicated(list_names(lists), x) by {}
    }
    if count > 0 && commands.len() > usize::MAX / count {
        proof {
            let c = commands@.len() as int;
            let m = count as int;
            let mx = usize::MAX as int;
            assert(c * m > mx) by (nonlinear_arith)
                requires
                    m > 0,
                    c > mx / m,
            ;
        }
        return Err(ParameterScanError::TooLarge);
    }
    proof {
        let c = commands@.len() as int;
        let m = count as int;
        let mx = usize::MAX as int;
        if m > 0 {
            assert(c * m <= mx) by (nonlinear_arith)
                requires
                    m > 0,
                    c <= mx / m,
            ;
        }
    }
    match get_parameter_list_commands(command_names, commands, &params) {
        Ok(v) => Ok(v),
        Err(OptionsError::UnexpectedCommandNameCount(given, built)) => Err(
            ParameterScanError::UnexpectedCommandNameCount(given, built),
        ),
        Err(_) => Err(ParameterScanError::TooLarge),
    }
}

} // verus!
