use vstd::prelude::*;
use vstd::std_specs::cmp::PartialEqSpec;

verus! {

/// Number of the first `upto` positions at which two sequences differ.
pub open spec fn mismatch_count<T>(left: Seq<T>, right: Seq<T>, upto: int) -> int
    decreases upto,
{
    if upto <= 0 {
        0
    } else {
        mismatch_count(left, right, upto - 1) + if left[upto - 1] != right[upto - 1] {
            1int
        } else {
            0int
        }
    }
}

/// The shorter of two lengths: as far as two sequences can be compared
/// position by position.
pub open spec fn common_len(left: int, right: int) -> int {
    if left <= right {
        left
    } else {
        right
    }
}

/// Number of positions, as far as both buffers reach, at which they differ.
pub open spec fn mismatches<T>(left: Seq<T>, right: Seq<T>) -> int {
    mismatch_count(left, right, common_len(left.len() as int, right.len() as int))
}

/// A sequence differs from itself nowhere.
pub proof fn lemma_no_mismatch_with_itself<T>(values: Seq<T>, upto: int)
    ensures
        mismatch_count(values, values, upto) == 0,
    decreases upto,
{
    if upto > 0 {
        lemma_no_mismatch_with_itself(values, upto - 1);
    }
}

/// Number of positions, as far as both buffers reach, at which two buffers
/// differ, for entries whose `==` is plain equality.
pub fn calc_diff<T: PartialEq>(left: &[T], right: &[T]) -> (count: usize)
    requires
        T::obeys_eq_spec(),
        forall|a: T, b: T| #[trigger] a.eq_spec(&b) <==> a == b,
    ensures
        count == mismatches(left@, right@),
{
    let len = if left.len() <= right.len() {
        left.len()
    } else {
        right.len()
    };
    let mut count: usize = 0;
    let mut i: usize = 0;
    while i < len
        invariant
            T::obeys_eq_spec(),
            forall|a: T, b: T| #[trigger] a.eq_spec(&b) <==> a == b,
            len == common_len(left.len() as int, right.len() as int),
            i <= len,
            count == mismatch_count(left@, right@, i as int),
            count <= i,
        decreases len - i,
    {
        if left[i] != right[i] {
            count += 1;
        }
        i += 1;
    }
    count
}

} // verus!
