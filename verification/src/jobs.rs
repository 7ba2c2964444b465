//! The concurrency bound of the parallel runner.
//!
//! An optional environment override gives the requested number of jobs;
//! it is accepted only when, after trimming, it is a well-formed decimal
//! integer that fits the machine word and is at least one. The effective
//! bound is the requested one clamped to the number of workspaces, and
//! defaults to one job per workspace.

use vstd::prelude::*;

use crate::text::trim;
use crate::text::trim_bounds;

verus! {

/// How the job-count override reads: a usable value, a rejected zero, or
/// text that is not a positive integer at all (the two rejections carry
/// different diagnostics, and both leave the default in force).
#[derive(Clone, Copy, Debug, PartialEq, Eq, Structural)]
pub enum JobsParse {
    Accepted(usize),
    RejectedZero,
    RejectedInvalid,
}

/// Whether a byte is an ASCII decimal digit.
pub open spec fn is_digit(b: u8) -> bool {
    48 <= b && b <= 57
}

/// Whether every byte of `s` is a decimal digit.
pub open spec fn all_digits(s: Seq<u8>) -> bool {
    forall|i: int| 0 <= i < s.len() ==> is_digit(#[trigger] s[i])
}

/// The numeric value of a digit string, most significant digit first.
pub open spec fn digits_value(s: Seq<u8>) -> int
    decreases s.len(),
{
    if s.len() == 0 {
        0
    } else {
        digits_value(s.drop_last()) * 10 + (s.last() - 48)
    }
}

/// The digit part of an integer literal: an optional leading `+` sign is
/// stripped, as the standard unsigned parser accepts one.
pub open spec fn digits_of(s: Seq<u8>) -> Seq<u8> {
    if s.len() > 0 && s[0] == 43 {
        s.drop_first()
    } else {
        s
    }
}

/// What parsing `s` as a machine-word unsigned integer yields: its value
/// when `s` is nonempty, all digits after an optional `+`, and the value
/// fits; nothing otherwise.
pub open spec fn parsed_usize(s: Seq<u8>) -> Option<int> {
    if digits_of(s).len() > 0 && all_digits(digits_of(s)) && digits_value(digits_of(s))
        <= usize::MAX as int {
        Some(digits_value(digits_of(s)))
    } else {
        None
    }
}

/// How the override text reads, after trimming: rejected when it does
/// not parse or parses to zero, accepted otherwise.
pub open spec fn jobs_parse_spec(s: Seq<u8>) -> JobsParse {
    match parsed_usize(trim(s)) {
        Some(v) => if v == 0 {
            JobsParse::RejectedZero
        } else {
            JobsParse::Accepted(v as usize)
        },
        None => JobsParse::RejectedInvalid,
    }
}

/// A digit string has a nonnegative value.
proof fn lemma_digits_value_nonneg(s: Seq<u8>)
    requires
        all_digits(s),
    ensures
        digits_value(s) >= 0,
    decreases s.len(),
{
    if s.len() > 0 {
        assert(all_digits(s.drop_last())) by {
            assert(forall|i: int| 0 <= i < s.len() - 1 ==> s.drop_last()[i] == #[trigger] s[i]);
        }
        lemma_digits_value_nonneg(s.drop_last());
    }
}

/// Extending a digit string can only grow its value.
proof fn lemma_digits_value_prefix_le(s: Seq<u8>, m: int)
    requires
        all_digits(s),
        0 <= m <= s.len(),
    ensures
        digits_value(s.subrange(0, m)) <= digits_value(s),
    decreases s.len(),
{
    if m == s.len() {
        assert(s.subrange(0, m) =~= s);
    } else {
        let shorter = s.drop_last();
        assert(all_digits(shorter)) by {
            assert(forall|i: int| 0 <= i < s.len() - 1 ==> shorter[i] == #[trigger] s[i]);
        }
        lemma_digits_value_nonneg(shorter);
        assert(digits_value(shorter) <= digits_value(s));
        assert(s.subrange(0, m) =~= shorter.subrange(0, m));
        lemma_digits_value_prefix_le(shorter, m);
    }
}

/// Parses the job-count override, exactly as the standard unsigned
/// parser reads the trimmed text, with zero rejected separately.
pub fn parse_jobs(raw: &Vec<u8>) -> (r: JobsParse)
    ensures
        r == jobs_parse_spec(raw@),
{
    let bounds = trim_bounds(raw);
    let start = bounds.0;
    let end = bounds.1;
    let ghost t = trim(raw@);
    let mut i: usize = start;
    if i < end && raw[i] == 43 {
        i = i + 1;
    }
    let ghost d = digits_of(t);
    proof {
        if t.len() > 0 && t[0] == 43 {
            assert(t[0] == raw@[start as int]);
            assert(d =~= raw@.subrange(i as int, end as int));
        } else {
            if start < end {
                assert(t[0] == raw@[start as int]);
            }
            assert(d =~= raw@.subrange(i as int, end as int));
        }
    }
    if i == end {
        // no digits at all
        return JobsParse::RejectedInvalid;
    }
    let mut acc: usize = 0;
    let mut k: usize = i;
    while k < end
        invariant
            i <= k <= end,
            i < end,
            end <= raw@.len(),
            t == trim(raw@),
            d == digits_of(t),
            d == raw@.subrange(i as int, end as int),
            all_digits(raw@.subrange(i as int, k as int)),
            acc == digits_value(raw@.subrange(i as int, k as int)),
        decreases end - k,
    {
        let b = raw[k];
        if b < 48 || b > 57 {
            proof {
                assert(d[k - i] == raw@[k as int]);
                assert(!all_digits(d));
            }
            return JobsParse::RejectedInvalid;
        }
        let dig = (b - 48) as usize;
        let ghost pre = raw@.subrange(i as int, k as int);
        let ghost post = raw@.subrange(i as int, k as int + 1);
        proof {
            assert(post.drop_last() =~= pre);
            assert(post.last() == raw@[k as int]);
            assert(forall|u: int| 0 <= u < pre.len() ==> post[u] == #[trigger] pre[u]);
            assert(all_digits(post));
        }
        if acc > (usize::MAX - dig) / 10 {
            proof {
                let m = usize::MAX as int;
                let y = m - dig;
                assert(y == 10 * (y / 10) + (y % 10) && 0 <= y % 10 < 10) by {
                    vstd::arithmetic::div_mod::lemma_fundamental_div_mod(y, 10);
                }
                assert(acc * 10 >= (y / 10 + 1) * 10);
                assert(acc * 10 + dig > m);
                assert(digits_value(post) == acc * 10 + dig);
                if all_digits(d) {
                    assert(post =~= d.subrange(0, k - i + 1));
                    lemma_digits_value_prefix_le(d, k - i + 1);
                    assert(digits_value(d) > m);
                }
            }
            return JobsParse::RejectedInvalid;
        }
        proof {
            let m = usize::MAX as int;
            let y = m - dig;
            assert(y == 10 * (y / 10) + (y % 10) && 0 <= y % 10 < 10) by {
                vstd::arithmetic::div_mod::lemma_fundamental_div_mod(y, 10);
            }
            assert(acc * 10 <= (y / 10) * 10);
            assert(acc * 10 + dig <= m);
            assert(digits_value(post) == acc * 10 + dig);
        }
        acc = acc * 10 + dig;
        k = k + 1;
    }
    proof {
        assert(raw@.subrange(i as int, k as int) == d);
        assert(parsed_usize(t) == Some(acc as int));
    }
    if acc == 0 {
        JobsParse::RejectedZero
    } else {
        JobsParse::Accepted(acc)
    }
}

/// The concurrency cap implied by the workspace count alone: one job per
/// workspace, at least one.
pub open spec fn default_jobs(n: nat) -> nat {
    if n == 0 {
        1
    } else {
        n
    }
}

/// The effective bound: the requested one when it does not exceed the
/// cap, else the cap; the cap itself when nothing was requested.
pub open spec fn clamped_jobs(requested: Option<usize>, n: nat) -> nat {
    match requested {
        Some(j) => if j <= default_jobs(n) {
            j as nat
        } else {
            default_jobs(n)
        },
        None => default_jobs(n),
    }
}

/// Computes the effective job bound for `n_workspaces` work items. The
/// result is always at least one, never exceeds the number of workspaces
/// when there is any work, and never exceeds an accepted request — so no
/// more workers are allocated than requested or than there are work
/// items.
pub fn effective_jobs(requested: Option<usize>, n_workspaces: usize) -> (r: usize)
    requires
        requested matches Some(j) ==> j >= 1,
    ensures
        r as nat == clamped_jobs(requested, n_workspaces as nat),
        r >= 1,
        n_workspaces >= 1 ==> r <= n_workspaces,
        requested matches Some(j) ==> r <= j,
{
    let cap = if n_workspaces == 0 {
        1
    } else {
        n_workspaces
    };
    match requested {
        Some(j) => if j <= cap {
            j
        } else {
            cap
        },
        None => cap,
    }
}

} // verus!
