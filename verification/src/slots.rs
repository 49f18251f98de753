//! Counting slots and parameters from zero and from one.

use vstd::prelude::*;

verus! {

/// The number before `n`; the lowest number is followed by the highest.
pub open spec fn before(n: i32) -> i32 {
    if n == i32::MIN {
        i32::MAX
    } else {
        (n - 1) as i32
    }
}

/// The number before `n`.
pub fn one_less(n: i32) -> (r: i32)
    ensures
        r == before(n),
{
    if n == i32::MIN {
        i32::MAX
    } else {
        n - 1
    }
}

/// The number behind `n`; the highest number is followed by the lowest.
pub open spec fn after(n: i32) -> i32 {
    if n == i32::MAX {
        i32::MIN
    } else {
        (n + 1) as i32
    }
}

/// The number behind `n`.
pub fn one_more(n: i32) -> (r: i32)
    ensures
        r == after(n),
{
    if n == i32::MAX {
        i32::MIN
    } else {
        n + 1
    }
}

/// Counting from one and back to zero gives the number that it was.
pub proof fn lemma_counted_back(n: i32)
    ensures
        before(after(n)) == n,
        after(before(n)) == n,
{
}

/// Counting from one gives one more, and back to zero one less, wherever there is such a
/// number.
pub proof fn lemma_counting(n: i32)
    ensures
        n < i32::MAX ==> after(n) == n + 1,
        n > i32::MIN ==> before(n) == n - 1,
{
}

} // verus!
