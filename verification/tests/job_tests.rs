use gitignore_nuke::job_system::{run_recursive_job, ActiveCounter};
use gitignore_nuke::jobs::{CountdownJob, DoubleJob};

#[test]
fn basic_recursive_job() {
    let data = vec![3];
    let result = run_recursive_job(&CountdownJob {}, data);
    assert_eq!(result, vec![6, 4, 2]);
}

#[test]
fn bigger_recursive_job() {
    let data = vec![1, 2, 3, 4, 5, 6, 7, 8, 9, 10];
    let expected_result: i32 = data.iter().map(|x| x * (x + 1)).sum();

    let result = run_recursive_job(&CountdownJob {}, data);
    assert_eq!(result.iter().sum::<i32>(), expected_result);
}

#[test]
fn doubling_job_sums() {
    let data: Vec<i32> = (1..10).collect();
    let expected: i32 = 2 * data.iter().sum::<i32>();
    let result = run_recursive_job(&DoubleJob {}, data);
    assert_eq!(result.len(), 9);
    assert_eq!(result.iter().sum::<i32>(), expected);
}

#[test]
fn active_counter_reports_quiescence() {
    let mut counter = ActiveCounter::new();
    assert!(counter.is_zero());
    let token = counter.take_token();
    assert!(!counter.is_zero());
    counter.release_token(token);
    assert!(counter.is_zero());
}
