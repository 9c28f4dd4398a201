//! Decisions on measured timings, in whole nanoseconds: the extremes of a
//! sample, the warnings a result carries, and the baseline of a comparison.
use vstd::prelude::*;

verus! {

/// The sum of a sample.
pub open spec fn sum_of(s: Seq<i64>) -> int
    decreases s.len(),
{
    if s.len() == 0 {
        0
    } else {
        sum_of(s.drop_last()) + s.last()
    }
}

/// `m` is the smallest element of `s`.
pub open spec fn is_min(s: Seq<i64>, m: i64) -> bool {
    s.contains(m) && forall|i: int| 0 <= i < s.len() ==> m <= s[i]
}

/// `m` is the largest element of `s`.
pub open spec fn is_max(s: Seq<i64>, m: i64) -> bool {
    s.contains(m) && forall|i: int| 0 <= i < s.len() ==> s[i] <= m
}

/// The smallest and the largest time of a sample.
pub fn min_max(times: &Vec<i64>) -> (r: (i64, i64))
    requires
        times@.len() > 0,
    ensures
        is_min(times@, r.0),
        is_max(times@, r.1),
{
    let mut lo = times[0];
    let mut hi = times[0];
    let mut i: usize = 1;
    while i < times.len()
        invariant
            1 <= i <= times@.len(),
            exists|k: int| 0 <= k < i && times@[k] == lo,
            exists|k: int| 0 <= k < i && times@[k] == hi,
            forall|k: int| 0 <= k < i ==> lo <= #[trigger] times@[k] <= hi,
        decreases times@.len() - i,
    {
        if times[i] < lo {
            lo = times[i];
        }
        if times[i] > hi {
            hi = times[i];
        }
        i = i + 1;
    }
    (lo, hi)
}

/// The sum of a sample.
pub fn total(times: &Vec<i64>) -> (r: i128)
    ensures
        r == sum_of(times@),
        -(times@.len() * 0x8000_0000_0000_0000) <= r <= times@.len() * 0x7fff_ffff_ffff_ffff,
{
    let mut acc: i128 = 0;
    let mut i: usize = 0;
    while i < times.len()
        invariant
            i <= times@.len(),
            acc == sum_of(times@.take(i as int)),
            -(i * 0x8000_0000_0000_0000) <= acc <= i * 0x7fff_ffff_ffff_ffff,
        decreases times@.len() - i,
    {
        proof {
            assert(times@.take(i + 1).drop_last() =~= times@.take(i as int));
        }
        acc = acc + times[i] as i128;
        i = i + 1;
    }
    assert(times@.take(i as int) =~= times@);
    acc
}

/// An anomaly of a benchmark result worth telling the user about.
#[derive(Debug, Clone, Copy, PartialEq, Eq, Structural)]
pub enum Warning {
    /// Some run took less than the timer can resolve reliably.
    FastExecutionTime,
    /// Some run exited with a non-zero code, and failures are ignored.
    NonZeroExitCode,
    /// The first run took at least twice as long as the others on average.
    SlowInitialRun,
    /// Some time, once the shell's own time is taken off, is not positive.
    ZeroMeasurement,
}

/// Some time of the sample is below `floor`.
pub open spec fn has_fast_run(times: Seq<i64>, floor: i64) -> bool {
    exists|i: int| 0 <= i < times.len() && times[i] < floor
}

/// Some run exited other than with code 0 (`None`: killed by a signal).
pub open spec fn has_failed_run(exit_codes: Seq<Option<i32>>) -> bool {
    exists|i: int| 0 <= i < exit_codes.len() && exit_codes[i] != Some(0i32)
}

/// The first of two or more runs took longer than the mean of the others,
/// and at least twice as long.
pub open spec fn slow_first_run(times: Seq<i64>) -> bool {
    &&& times.len() >= 2
    &&& times[0] * (times.len() - 1) > sum_of(times.drop_first())
    &&& times[0] * (times.len() - 1) >= 2 * sum_of(times.drop_first())
}

/// The warnings of a result, in this order: fast execution where some run
/// is below `floor`; non-zero exit code where failures are ignored and
/// some run failed; a slow first run; zero measurement where some corrected
/// time is not positive.
pub open spec fn warnings_spec(
    times: Seq<i64>,
    exit_codes: Seq<Option<i32>>,
    ignore_failure: bool,
    floor: i64,
) -> Seq<Warning> {
    (if has_fast_run(times, floor) { seq![Warning::FastExecutionTime] } else { Seq::empty() })
        + (if ignore_failure && has_failed_run(exit_codes) {
        seq![Warning::NonZeroExitCode]
    } else {
        Seq::empty()
    }) + (if slow_first_run(times) { seq![Warning::SlowInitialRun] } else { Seq::empty() }) + (
    if has_fast_run(times, 1) {
        seq![Warning::ZeroMeasurement]
    } else {
        Seq::empty()
    })
}

/// A sample's sum is its first element plus the sum of the rest.
pub proof fn lemma_sum_first(s: Seq<i64>)
    requires
        s.len() > 0,
    ensures
        sum_of(s) == s[0] + sum_of(s.drop_first()),
{
    assert(s =~= seq![s[0]] + s.drop_first());
    lemma_sum_concat(seq![s[0]], s.drop_first());
    let one = seq![s[0]];
    assert(one.drop_last() =~= Seq::<i64>::empty());
    assert(sum_of(one) == sum_of(one.drop_last()) + one.last());
    assert(sum_of(Seq::<i64>::empty()) == 0);
    assert(sum_of(one) == s[0]);
}

/// Whether the first run was slow (see `slow_first_run`).
fn is_slow_first_run(times: &Vec<i64>) -> (r: bool)
    ensures
        r == slow_first_run(times@),
{
    let n = times.len();
    if n < 2 {
        return false;
    }
    let tot = total(times);
    let first = times[0];
    proof {
        lemma_sum_first(times@);
    }
    let rest = tot - first as i128;
    let ghost nn = n as int;
    let ghost f = first as int;
    proof {
        assert(-0x8000_0000_0000_0000 * (nn - 1) <= f * (nn - 1) <= 0x8000_0000_0000_0000 * (nn - 1))
            by (nonlinear_arith)
            requires
                -0x8000_0000_0000_0000 <= f <= 0x8000_0000_0000_0000,
                nn >= 2,
        ;
    }
    let x = (first as i128) * ((n - 1) as i128);
    if x >= 0 && rest < 0 {
        return true;
    }
    if x < 0 && rest >= 0 {
        return false;
    }
    let d = x - rest;
    d > 0 && d >= rest
}

/// The warnings of a result whose corrected times are `times` (see
/// `warnings_spec`).
pub fn result_warnings(
    times: &Vec<i64>,
    exit_codes: &Vec<Option<i32>>,
    ignore_failure: bool,
    floor: i64,
) -> (r: Vec<Warning>)
    requires
        times@.len() > 0,
    ensures
        r@ == warnings_spec(times@, exit_codes@, ignore_failure, floor),
{
    let mut r: Vec<Warning> = Vec::new();
    let mut fast = false;
    let mut i: usize = 0;
    while i < times.len()
        invariant
            i <= times@.len(),
            fast <==> exists|k: int| 0 <= k < i && times@[k] < floor,
        decreases times@.len() - i,
    {
        if times[i] < floor {
            fast = true;
        }
        i = i + 1;
    }
    let mut non_positive = false;
    let mut i: usize = 0;
    while i < times.len()
        invariant
            i <= times@.len(),
            non_positive <==> exists|k: int| 0 <= k < i && times@[k] < 1,
        decreases times@.len() - i,
    {
        if times[i] < 1 {
            non_positive = true;
        }
        i = i + 1;
    }
    let mut failed = false;
    let mut j: usize = 0;
    while j < exit_codes.len()
        invariant
            j <= exit_codes@.len(),
            failed <==> exists|k: int| 0 <= k < j && exit_codes@[k] != Some(0i32),
        decreases exit_codes@.len() - j,
    {
        let ok = match exit_codes[j] {
            Some(c) => c == 0,
            None => false,
        };
        if !ok {
            failed = true;
        }
        j = j + 1;
    }
    if fast {
        r.push(Warning::FastExecutionTime);
    }
    if ignore_failure && failed {
        r.push(Warning::NonZeroExitCode);
    }
    if is_slow_first_run(times) {
        r.push(Warning::SlowInitialRun);
    }
    if non_positive {
        r.push(Warning::ZeroMeasurement);
    }
    assert(r@ =~= warnings_spec(times@, exit_codes@, ignore_failure, floor));
    r
}

/// Some mean is not positive: relative speeds cannot be computed.
pub open spec fn has_non_positive(means: Seq<i64>) -> bool {
    exists|i: int| 0 <= i < means.len() && means[i] <= 0
}

/// `f` is the first result with the smallest mean.
pub open spec fn is_fastest(means: Seq<i64>, f: int) -> bool {
    &&& 0 <= f < means.len()
    &&& forall|i: int| 0 <= i < means.len() ==> means[f] <= means[i]
    &&& forall|i: int| 0 <= i < f ==> means[f] < means[i]
}

/// The baseline of a comparison of mean times: the first fastest result,
/// or `None` where there is no result or some mean is not positive.
pub fn fastest_index(means: &Vec<i64>) -> (r: Option<usize>)
    ensures
        match r {
            None => means@.len() == 0 || has_non_positive(means@),
            Some(f) => !has_non_positive(means@) && is_fastest(means@, f as int),
        },
{
    if means.len() == 0 {
        return None;
    }
    let mut f: usize = 0;
    let mut i: usize = 0;
    while i < means.len()
        invariant
            means@.len() > 0,
            i <= means@.len(),
            f < means@.len(),
            f <= i || f == 0,
            forall|k: int| 0 <= k < i ==> means@[k] > 0,
            forall|k: int| 0 <= k < i ==> means@[f as int] <= means@[k],
            forall|k: int| 0 <= k < f ==> means@[f as int] < means@[k],
        decreases means@.len() - i,
    {
        if means[i] <= 0 {
            return None;
        }
        if means[i] < means[f] {
            f = i;
        }
        i = i + 1;
    }
    Some(f)
}

/// The extremes of a sample are its least and greatest elements, and the
/// least is no larger than the greatest.
pub proof fn law_min_max_bracket(times: Seq<i64>, lo: i64, hi: i64)
    requires
        is_min(times, lo),
        is_max(times, hi),
    ensures
        lo <= hi,
        forall|i: int| 0 <= i < times.len() ==> lo <= #[trigger] times[i] <= hi,
{
    let k = choose|k: int| 0 <= k < times.len() && times[k] == lo;
    assert(times[k] <= hi);
}

/// The sum of two samples joined is the sum of their sums.
pub proof fn lemma_sum_concat(a: Seq<i64>, b: Seq<i64>)
    ensures
        sum_of(a + b) == sum_of(a) + sum_of(b),
    decreases b.len(),
{
    if b.len() == 0 {
        assert(a + b =~= a);
    } else {
        assert((a + b).drop_last() =~= a + b.drop_last());
        lemma_sum_concat(a, b.drop_last());
    }
}

/// Duplicating a sample keeps its least and greatest elements, and doubles
/// its sum over twice the runs, so that the mean stays the same.
pub proof fn law_duplication_keeps_extremes_and_mean(times: Seq<i64>, lo: i64, hi: i64)
    requires
        is_min(times, lo),
        is_max(times, hi),
    ensures
        is_min(times + times, lo),
        is_max(times + times, hi),
        sum_of(times + times) == 2 * sum_of(times),
        (times + times).len() == 2 * times.len(),
{
    let d = times + times;
    let k = choose|k: int| 0 <= k < times.len() && times[k] == lo;
    assert(d[k] == lo);
    let m = choose|m: int| 0 <= m < times.len() && times[m] == hi;
    assert(d[m] == hi);
    assert forall|i: int| 0 <= i < d.len() implies lo <= #[trigger] d[i] <= hi by {
        if i < times.len() {
            assert(d[i] == times[i]);
        } else {
            assert(d[i] == times[i - times.len()]);
        }
    }
    lemma_sum_concat(times, times);
}

/// A sample whose times sum to no more than zero holds a time that is not
/// positive.
pub proof fn lemma_non_positive_sum(times: Seq<i64>)
    requires
        times.len() > 0,
        sum_of(times) <= 0,
    ensures
        has_fast_run(times, 1),
    decreases times.len(),
{
    if times.last() >= 1 {
        let init = times.drop_last();
        if init.len() == 0 {
            assert(sum_of(init) == 0);
        } else {
            lemma_non_positive_sum(init);
            let k = choose|k: int| 0 <= k < init.len() && init[k] < 1;
            assert(times[k] == init[k]);
        }
    } else {
        assert(times[times.len() - 1] < 1);
    }
}

/// A result whose corrected times have a mean that is not positive carries
/// the zero-measurement warning, and a comparison that includes that mean
/// has no baseline.
pub proof fn law_zero_measurement(
    times: Seq<i64>,
    exit_codes: Seq<Option<i32>>,
    ignore_failure: bool,
    floor: i64,
    means: Seq<i64>,
    i: int,
)
    requires
        times.len() > 0,
        sum_of(times) <= 0,
        0 <= i < means.len(),
        means[i] <= 0,
    ensures
        warnings_spec(times, exit_codes, ignore_failure, floor).contains(Warning::ZeroMeasurement),
        has_non_positive(means),
{
    lemma_non_positive_sum(times);
    let w = warnings_spec(times, exit_codes, ignore_failure, floor);
    assert(w[w.len() - 1] == Warning::ZeroMeasurement);
}

} // verus!
