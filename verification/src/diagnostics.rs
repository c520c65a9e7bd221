//! Which kind of failure a message from the native validation layer reports.

use crate::chars::chars_of;
use vstd::prelude::*;

verus! {

/// `p` occurs in `s` starting at `i`.
pub open spec fn occurs_at(s: Seq<char>, p: Seq<char>, i: int) -> bool {
    0 <= i && i + p.len() <= s.len() && s.subrange(i, i + p.len()) == p
}

/// `p` occurs somewhere in `s`.
pub open spec fn contains_text(s: Seq<char>, p: Seq<char>) -> bool {
    exists|i: int| occurs_at(s, p, i)
}

/// Whether `p` occurs in `s`.
pub fn contains(s: &str, p: &str) -> (r: bool)
    ensures
        r == contains_text(s@, p@),
{
    let sc = chars_of(s);
    let pc = chars_of(p);
    let n = sc.len();
    let m = pc.len();
    if m > n {
        proof {
            assert forall|i: int| !occurs_at(s@, p@, i) by {}
        }
        return false;
    }
    let mut i: usize = 0;
    while i <= n - m
        invariant
            n == s@.len(),
            m == p@.len(),
            sc@ == s@,
            pc@ == p@,
            m <= n,
            i <= n - m + 1,
            forall|j: int| 0 <= j < i ==> !occurs_at(s@, p@, j),
        decreases n - m + 1 - i,
    {
        let mut k: usize = 0;
        let mut same = true;
        while k < m
            invariant
                n == s@.len(),
                m == p@.len(),
                sc@ == s@,
                pc@ == p@,
                i + m <= n,
                k <= m,
                same <==> forall|q: int| 0 <= q < k ==> s@[i + q] == p@[q],
            decreases m - k,
        {
            if sc[i + k] != pc[k] {
                same = false;
            }
            k = k + 1;
        }
        if same {
            assert(s@.subrange(i as int, i + m) =~= p@);
            assert(occurs_at(s@, p@, i as int));
            return true;
        }
        proof {
            let q = choose|q: int| 0 <= q < m && s@[i + q] != p@[q];
            assert(s@.subrange(i as int, i + m)[q] != p@[q]);
        }
        i = i + 1;
    }
    proof {
        assert forall|j: int| !occurs_at(s@, p@, j) by {
            if 0 <= j && j + m <= n {
                assert(j < i);
            }
        }
    }
    false
}

/// The kinds of failure a native validation message can report.
#[derive(Debug, Clone, Copy, PartialEq, Eq, Structural)]
pub enum ErrorClass {
    /// A value was rejected (`ValidationError`, `must be`).
    Value,
    /// Shared memory failed (`ShmError`).
    Os,
    /// A schema hash disagreed (`SchemaConflictError`).
    SchemaConflict,
    /// Anything else.
    Runtime,
}

/// The class of `message`, by the first of these markers it holds.
pub open spec fn spec_classify(message: Seq<char>) -> ErrorClass {
    if contains_text(message, "ValidationError"@) || contains_text(message, "must be"@) {
        ErrorClass::Value
    } else if contains_text(message, "ShmError"@) {
        ErrorClass::Os
    } else if contains_text(message, "SchemaConflictError"@) {
        ErrorClass::SchemaConflict
    } else {
        ErrorClass::Runtime
    }
}

/// Classify a message of the native validation layer.
pub fn classify_message(message: &str) -> (r: ErrorClass)
    ensures
        r == spec_classify(message@),
{
    if contains(message, "ValidationError") || contains(message, "must be") {
        ErrorClass::Value
    } else if contains(message, "ShmError") {
        ErrorClass::Os
    } else if contains(message, "SchemaConflictError") {
        ErrorClass::SchemaConflict
    } else {
        ErrorClass::Runtime
    }
}

} // verus!
