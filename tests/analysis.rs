use hyperfine::analysis::{fastest_index, min_max, result_warnings, total, Warning};

#[test]
fn min_and_max_of_times() {
    let times = vec![30, 10, 50, 20];
    assert_eq!(min_max(&times), (10, 50));
    assert_eq!(min_max(&vec![7]), (7, 7));
    assert_eq!(min_max(&vec![-3, 4, -9]), (-9, 4));
}

#[test]
fn duplicated_sample_keeps_extremes_and_mean() {
    let times: Vec<i64> = vec![4, 8, 6];
    let doubled: Vec<i64> = times.iter().chain(times.iter()).copied().collect();
    assert_eq!(min_max(&times), min_max(&doubled));
    assert_eq!(total(&doubled), 2 * total(&times));
}

#[test]
fn sum_of_extreme_values() {
    assert_eq!(total(&vec![i64::MAX, i64::MAX]), 2 * i64::MAX as i128);
    assert_eq!(total(&vec![]), 0);
}

#[test]
fn single_run_has_no_warnings() {
    assert!(result_warnings(&vec![20_000_000], &vec![Some(0)], false, 5_000_000).is_empty());
}

#[test]
fn zero_measurement_warning() {
    let w = result_warnings(&vec![0, 0, 0], &vec![Some(0); 3], false, 0);
    assert_eq!(w, vec![Warning::ZeroMeasurement]);
    let w = result_warnings(&vec![-5, 3], &vec![Some(0); 2], false, -10);
    assert_eq!(w, vec![Warning::ZeroMeasurement]);
    let w = result_warnings(&vec![8, 0, 9], &vec![Some(0); 3], false, -10);
    assert_eq!(w, vec![Warning::ZeroMeasurement]);
}

#[test]
fn fast_and_failing_runs() {
    let w = result_warnings(&vec![1_000, 9_000_000], &vec![Some(0), Some(2)], true, 5_000_000);
    assert_eq!(w, vec![Warning::FastExecutionTime, Warning::NonZeroExitCode]);
    let w = result_warnings(&vec![9_000_000], &vec![None], false, 5_000_000);
    assert!(w.is_empty());
    let w = result_warnings(&vec![9_000_000], &vec![None], true, 5_000_000);
    assert_eq!(w, vec![Warning::NonZeroExitCode]);
}

#[test]
fn relative_speed_baseline() {
    let means = vec![2_000_000_000, 1_000_000_000];
    let f = fastest_index(&means).unwrap();
    assert_eq!(f, 1);
    assert_eq!(means[0] as f64 / means[f] as f64, 2.0);
    let stddev = (means[0] as f64 / means[f] as f64) * (0.1f64 * 0.1 + 0.1 * 0.1).sqrt();
    assert!((stddev - 0.2828).abs() < 1e-4);
}

#[test]
fn first_of_equal_means_is_baseline() {
    assert_eq!(fastest_index(&vec![5, 3, 3, 9]), Some(1));
}

#[test]
fn zero_mean_makes_comparison_uncomputable() {
    assert_eq!(fastest_index(&vec![1_000, 0, 2_000]), None);
    assert_eq!(fastest_index(&vec![1_000, -4]), None);
    assert_eq!(fastest_index(&vec![]), None);
}

#[test]
fn slow_initial_run_warning() {
    let w = result_warnings(&vec![30_000_000, 10_000_000, 20_000_000], &vec![Some(0); 3], false, 0);
    assert_eq!(w, vec![Warning::SlowInitialRun]);
    let w = result_warnings(&vec![29_999_999, 10_000_000, 20_000_000], &vec![Some(0); 3], false, 0);
    assert!(w.is_empty());
    let w = result_warnings(&vec![i64::MAX, 1, 1], &vec![Some(0); 3], false, 0);
    assert_eq!(w, vec![Warning::SlowInitialRun]);
    let w = result_warnings(&vec![5, -1, -1], &vec![Some(0); 3], false, 0);
    assert_eq!(
        w,
        vec![Warning::FastExecutionTime, Warning::SlowInitialRun, Warning::ZeroMeasurement]
    );
    let w = result_warnings(&vec![7, 7, 7], &vec![Some(0); 3], false, 0);
    assert!(w.is_empty());
}
