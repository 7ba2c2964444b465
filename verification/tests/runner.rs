use scarb_clean::runner::JobOutcome;
use scarb_clean::runner::aggregate_exit_code;
use scarb_clean::runner::count_failures;
use scarb_clean::runner::overall_success;

#[test]
fn all_successes_aggregate_to_success() {
    let outcomes = vec![JobOutcome::Succeeded, JobOutcome::Succeeded];
    assert_eq!(count_failures(&outcomes), 0);
    assert!(overall_success(&outcomes));
    assert_eq!(aggregate_exit_code(count_failures(&outcomes)), 0);
}

#[test]
fn one_failure_fails_the_aggregate() {
    let outcomes = vec![
        JobOutcome::Succeeded,
        JobOutcome::FailedWithExitCode(Some(2)),
        JobOutcome::Succeeded,
    ];
    assert_eq!(count_failures(&outcomes), 1);
    assert!(!overall_success(&outcomes));
    assert_eq!(aggregate_exit_code(count_failures(&outcomes)), 1);
}

#[test]
fn failure_does_not_mask_other_outcomes() {
    // workspace A fails, B and C still ran and their outcomes are all
    // recorded: one outcome per workspace, partitioned 1 failure / 2
    // successes.
    let outcomes = vec![
        JobOutcome::FailedWithExitCode(Some(1)),
        JobOutcome::Succeeded,
        JobOutcome::Succeeded,
    ];
    assert_eq!(outcomes.len(), 3);
    assert_eq!(count_failures(&outcomes), 1);
    assert!(!overall_success(&outcomes));
}

#[test]
fn launch_failure_counts_like_nonzero_exit() {
    let outcomes = vec![
        JobOutcome::FailedToLaunch,
        JobOutcome::FailedWithExitCode(None),
        JobOutcome::FailedWithExitCode(Some(101)),
    ];
    assert_eq!(count_failures(&outcomes), 3);
    assert!(!overall_success(&outcomes));
}

#[test]
fn empty_outcome_list_is_a_success() {
    let outcomes: Vec<JobOutcome> = Vec::new();
    assert_eq!(count_failures(&outcomes), 0);
    assert!(overall_success(&outcomes));
    assert_eq!(aggregate_exit_code(0), 0);
}
