use scarb_clean::jobs::JobsParse;
use scarb_clean::jobs::effective_jobs;
use scarb_clean::jobs::parse_jobs;

fn parsed(s: &str) -> JobsParse {
    parse_jobs(&s.as_bytes().to_vec())
}

#[test]
fn plain_number_is_accepted() {
    assert_eq!(parsed("4"), JobsParse::Accepted(4));
    assert_eq!(parsed("12"), JobsParse::Accepted(12));
    assert_eq!(parsed("007"), JobsParse::Accepted(7));
}

#[test]
fn surrounding_whitespace_is_trimmed() {
    assert_eq!(parsed(" 7\n"), JobsParse::Accepted(7));
    assert_eq!(parsed("\t3 "), JobsParse::Accepted(3));
}

#[test]
fn leading_plus_sign_is_accepted() {
    assert_eq!(parsed("+12"), JobsParse::Accepted(12));
}

#[test]
fn zero_is_rejected_as_zero() {
    assert_eq!(parsed("0"), JobsParse::RejectedZero);
    assert_eq!(parsed(" 0 "), JobsParse::RejectedZero);
    assert_eq!(parsed("000"), JobsParse::RejectedZero);
}

#[test]
fn non_numbers_are_rejected_as_invalid() {
    assert_eq!(parsed("abc"), JobsParse::RejectedInvalid);
    assert_eq!(parsed(""), JobsParse::RejectedInvalid);
    assert_eq!(parsed("   "), JobsParse::RejectedInvalid);
    assert_eq!(parsed("-3"), JobsParse::RejectedInvalid);
    assert_eq!(parsed("1 2"), JobsParse::RejectedInvalid);
    assert_eq!(parsed("4x"), JobsParse::RejectedInvalid);
    assert_eq!(parsed("+"), JobsParse::RejectedInvalid);
    assert_eq!(parsed("3.5"), JobsParse::RejectedInvalid);
}

#[test]
fn overflowing_number_is_invalid() {
    assert_eq!(parsed("99999999999999999999999999"), JobsParse::RejectedInvalid);
}

#[test]
fn largest_machine_word_is_accepted() {
    let max = usize::MAX.to_string();
    assert_eq!(parse_jobs(&max.into_bytes()), JobsParse::Accepted(usize::MAX));
}

#[test]
fn default_is_one_job_per_workspace() {
    assert_eq!(effective_jobs(None, 5), 5);
    assert_eq!(effective_jobs(None, 1), 1);
}

#[test]
fn requested_bound_is_clamped_to_work_items() {
    assert_eq!(effective_jobs(Some(2), 5), 2);
    assert_eq!(effective_jobs(Some(10), 3), 3);
    assert_eq!(effective_jobs(Some(3), 3), 3);
}

#[test]
fn bound_is_at_least_one() {
    assert_eq!(effective_jobs(None, 0), 1);
    assert_eq!(effective_jobs(Some(4), 0), 1);
}
