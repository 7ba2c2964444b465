//! Outcomes of per-workspace clean invocations and their aggregation.
//!
//! Every invocation yields exactly one [`JobOutcome`]; the aggregate
//! result is a success exactly when no outcome is a failure, and the
//! process exit code follows from the failure count.

use vstd::prelude::*;

verus! {

/// The recorded result of one external clean invocation: the tool ran and
/// succeeded, the tool ran and exited with a failure status (whose exit
/// code may be absent when the process was terminated by a signal), or the
/// tool could not be launched at all.
#[derive(Clone, Copy, Debug, PartialEq, Eq)]
pub enum JobOutcome {
    Succeeded,
    FailedWithExitCode(Option<i32>),
    FailedToLaunch,
}

/// A launch failure and a failing exit status count the same in aggregation.
pub open spec fn is_success(o: JobOutcome) -> bool {
    o is Succeeded
}

/// Number of non-success outcomes in a sequence of outcomes.
pub open spec fn count_failures_spec(s: Seq<JobOutcome>) -> int
    decreases s.len(),
{
    if s.len() == 0 {
        0
    } else {
        count_failures_spec(s.drop_last()) + if is_success(s.last()) {
            0int
        } else {
            1int
        }
    }
}

/// Counts the outcomes that are not successes. No outcome is dropped:
/// every element of the input contributes to exactly one side of the
/// success/failure partition.
pub fn count_failures(outcomes: &Vec<JobOutcome>) -> (r: usize)
    ensures
        r == count_failures_spec(outcomes@),
        r <= outcomes@.len(),
{
    let mut count: usize = 0;
    let mut i: usize = 0;
    while i < outcomes.len()
        invariant
            0 <= i <= outcomes@.len(),
            count == count_failures_spec(outcomes@.subrange(0, i as int)),
            count <= i,
        decreases outcomes@.len() - i,
    {
        match outcomes[i] {
            JobOutcome::Succeeded => {},
            _ => {
                count = count + 1;
            },
        }
        proof {
            let pre = outcomes@.subrange(0, i as int);
            let post = outcomes@.subrange(0, i + 1 as int);
            assert(post.drop_last() =~= pre);
            assert(post.last() == outcomes@[i as int]);
        }
        i = i + 1;
    }
    proof {
        assert(outcomes@.subrange(0, outcomes@.len() as int) =~= outcomes@);
    }
    count
}

/// The aggregate result: true exactly when no invocation failed.
pub fn overall_success(outcomes: &Vec<JobOutcome>) -> (r: bool)
    ensures
        r == (count_failures_spec(outcomes@) == 0),
{
    let failures = count_failures(outcomes);
    failures == 0
}

/// The process exit code demanded by the failure count: zero when every
/// workspace was cleaned, one as soon as any invocation failed.
pub fn aggregate_exit_code(failures: usize) -> (r: i32)
    ensures
        failures == 0 ==> r == 0,
        failures > 0 ==> r == 1,
{
    if failures == 0 {
        0
    } else {
        1
    }
}

/// The aggregate result is a success if and only if every individual
/// outcome is a success, and the failure count is exactly the number of
/// non-success outcomes (the length of the failing partition).
pub proof fn lemma_aggregate_correctness(s: Seq<JobOutcome>)
    ensures
        count_failures_spec(s) == s.filter(|o: JobOutcome| !is_success(o)).len(),
        (count_failures_spec(s) == 0) <==> (forall|i: int| 0 <= i < s.len() ==> is_success(s[i])),
    decreases s.len(),
{
    reveal(Seq::filter);
    if s.len() == 0 {
    } else {
        lemma_aggregate_correctness(s.drop_last());
        assert(forall|i: int| 0 <= i < s.drop_last().len() ==> s.drop_last()[i] == s[i]);
        if count_failures_spec(s) == 0 {
            assert(forall|i: int| 0 <= i < s.len() - 1 ==> is_success(s[i]));
            assert(is_success(s.last()));
        }
    }
}

} // verus!
