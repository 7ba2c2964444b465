//! Interpretation of the confirmation answer.
//!
//! Only an affirmative answer — `y` or `yes`, case-insensitively, with
//! surrounding whitespace ignored — lets the run proceed; anything else,
//! including an empty answer, counts as a refusal.

use vstd::prelude::*;

use crate::text::lower_byte_exec;
use crate::text::lower_bytes;
use crate::text::trim;
use crate::text::trim_bounds;

verus! {

/// The short affirmative answer, `y`.
pub open spec fn yes_short() -> Seq<u8> {
    seq![121u8]
}

/// The long affirmative answer, `yes`.
pub open spec fn yes_long() -> Seq<u8> {
    seq![121u8, 101u8, 115u8]
}

/// Whether the answer, trimmed and lowercased, is `y` or `yes`.
pub open spec fn is_affirmative_spec(s: Seq<u8>) -> bool {
    lower_bytes(trim(s)) == yes_short() || lower_bytes(trim(s)) == yes_long()
}

/// Decides whether the answer read from the user is affirmative.
pub fn is_affirmative(input: &Vec<u8>) -> (r: bool)
    ensures
        r == is_affirmative_spec(input@),
{
    proof {
        assert(yes_short().len() == 1 && yes_short()[0] == 121u8);
        assert(yes_long().len() == 3 && yes_long()[0] == 121u8 && yes_long()[1] == 101u8
            && yes_long()[2] == 115u8);
    }
    let bounds = trim_bounds(input);
    let start = bounds.0;
    let end = bounds.1;
    let ghost t = trim(input@);
    let ghost l = lower_bytes(t);
    proof {
        assert(l.len() == t.len());
        assert(forall|k: int| 0 <= k < t.len() ==> l[k] == crate::text::lower_byte(#[trigger] t[k]));
        assert(forall|k: int|
            0 <= k < t.len() ==> #[trigger] t[k] == input@[start as int + k]);
    }
    let n = end - start;
    if n == 1 {
        let b = lower_byte_exec(input[start]);
        proof {
            assert(t[0] == input@[start as int]);
            if b == 121 {
                assert(l =~= yes_short());
            }
        }
        b == 121
    } else if n == 3 {
        let b0 = lower_byte_exec(input[start]);
        let b1 = lower_byte_exec(input[start + 1]);
        let b2 = lower_byte_exec(input[start + 2]);
        let r = b0 == 121 && b1 == 101 && b2 == 115;
        proof {
            assert(t[0] == input@[start as int]);
            assert(t[1] == input@[start as int + 1]);
            assert(t[2] == input@[start as int + 2]);
            if r {
                assert(l =~= yes_long());
            }
        }
        r
    } else {
        false
    }
}

} // verus!
