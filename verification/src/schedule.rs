use crate::par::each_once;
use vstd::prelude::*;

verus! {

/// Step `k` of a run changes entry `index` as its row's turn demands: the
/// entries of the row that runs take `apply`, all others stay.
pub open spec fn step_keeps_rows<T>(
    order: Seq<u32>,
    views: Seq<Seq<T>>,
    row_of: spec_fn(int) -> int,
    apply: spec_fn(int, T) -> T,
    k: int,
    index: int,
) -> bool {
    views[k + 1][index] == if row_of(index) == order[k] {
        apply(index, views[k][index])
    } else {
        views[k][index]
    }
}

/// In a run in which every row changes only its own entries, an entry
/// keeps its first value until its row runs and its changed value from
/// then on, wherever the row stands in the order.
pub proof fn lemma_entry_through_run<T>(
    order: Seq<u32>,
    count: u32,
    views: Seq<Seq<T>>,
    row_of: spec_fn(int) -> int,
    apply: spec_fn(int, T) -> T,
    index: int,
    turn: int,
    k: int,
)
    requires
        each_once(order, count),
        views.len() == count + 1,
        0 <= turn < count,
        order[turn] == row_of(index),
        0 <= k <= count,
        forall|j: int|
            0 <= j < count ==> #[trigger] step_keeps_rows(order, views, row_of, apply, j, index),
    ensures
        views[k][index] == if k <= turn {
            views[0][index]
        } else {
            apply(index, views[0][index])
        },
    decreases k,
{
    if k > 0 {
        lemma_entry_through_run(order, count, views, row_of, apply, index, turn, k - 1);
        assert(step_keeps_rows(order, views, row_of, apply, k - 1, index));
        if k - 1 != turn {
            assert(order[k - 1] != order[turn]);
        }
    }
}

/// In a run in which every row changes only its own entries, every entry of
/// a row that ran ends with its changed value.
pub proof fn lemma_rows_written<T>(
    order: Seq<u32>,
    count: u32,
    views: Seq<Seq<T>>,
    row_of: spec_fn(int) -> int,
    apply: spec_fn(int, T) -> T,
    index: int,
)
    requires
        each_once(order, count),
        views.len() == count + 1,
        0 <= row_of(index) < count,
        forall|j: int|
            0 <= j < count ==> #[trigger] step_keeps_rows(order, views, row_of, apply, j, index),
    ensures
        views[count as int][index] == apply(index, views[0][index]),
{
    let row = row_of(index) as u32;
    assert(order.contains(row));
    let turn = choose|turn: int| 0 <= turn < order.len() && order[turn] == row;
    lemma_entry_through_run(order, count, views, row_of, apply, index, turn, count as int);
}

/// Step `k` of a run leaves the length of the buffer as it is.
pub open spec fn step_keeps_len<T>(views: Seq<Seq<T>>, k: int) -> bool {
    views[k + 1].len() == views[k].len()
}

/// In a run whose steps leave the length of the buffer as it is, the
/// buffer has its first length after every step.
pub proof fn lemma_len_through_run<T>(views: Seq<Seq<T>>, count: int, k: int)
    requires
        0 <= k <= count,
        forall|j: int| 0 <= j < count ==> #[trigger] step_keeps_len(views, j),
    ensures
        views[k].len() == views[0].len(),
    decreases k,
{
    if k > 0 {
        lemma_len_through_run(views, count, k - 1);
        assert(step_keeps_len(views, k - 1));
    }
}

/// The values of the first `taken` rows of `order`, added up.
pub open spec fn sum_in_order(value: spec_fn(int) -> int, order: Seq<u32>, taken: int) -> int
    decreases taken,
{
    if taken <= 0 {
        0
    } else {
        sum_in_order(value, order, taken - 1) + value(order[taken - 1] as int)
    }
}

/// The values of the rows below `count`, added up.
pub open spec fn sum_below(value: spec_fn(int) -> int, count: int) -> int
    decreases count,
{
    if count <= 0 {
        0
    } else {
        sum_below(value, count - 1) + value(count - 1)
    }
}

/// Two orders that agree on their first `taken` rows give the same sum
/// over them.
proof fn lemma_sum_of_equal_prefix(
    value: spec_fn(int) -> int,
    first: Seq<u32>,
    second: Seq<u32>,
    taken: int,
)
    requires
        forall|j: int| 0 <= j < taken ==> first[j] == second[j],
    ensures
        sum_in_order(value, first, taken) == sum_in_order(value, second, taken),
    decreases taken,
{
    if taken > 0 {
        lemma_sum_of_equal_prefix(value, first, second, taken - 1);
    }
}

/// Taking one row out of an order takes its value out of the sum.
proof fn lemma_sum_without(value: spec_fn(int) -> int, order: Seq<u32>, at: int, taken: int)
    requires
        0 <= at < taken <= order.len(),
    ensures
        sum_in_order(value, order, taken) == sum_in_order(value, order.remove(at), taken - 1)
            + value(order[at] as int),
    decreases taken,
{
    let rest = order.remove(at);
    if taken == at + 1 {
        assert forall|j: int| 0 <= j < at implies order[j] == rest[j] by {}
        lemma_sum_of_equal_prefix(value, order, rest, at);
    } else {
        lemma_sum_without(value, order, at, taken - 1);
        assert(rest[taken - 2] == order[taken - 1]);
    }
}

/// A sum over all rows does not depend on the order in which they are taken.
pub proof fn lemma_sum_any_order(value: spec_fn(int) -> int, order: Seq<u32>, count: u32)
    requires
        each_once(order, count),
    ensures
        sum_in_order(value, order, count as int) == sum_below(value, count as int),
    decreases count,
{
    if count > 0 {
        let last = (count - 1) as u32;
        assert(order.contains(last));
        let at = choose|at: int| 0 <= at < order.len() && order[at] == last;
        let rest = order.remove(at);
        assert forall|k: int| 0 <= k < count - 1 implies #[trigger] rest[k] < count - 1 by {
            let source = if k < at {
                k
            } else {
                k + 1
            };
            assert(rest[k] == order[source]);
            assert(order[source] < count);
            assert(order[source] != order[at]);
        }
        assert forall|i: int, j: int| 0 <= i < rest.len() && 0 <= j < rest.len() && i != j implies rest[i]
            != rest[j] by {
            let si = if i < at {
                i
            } else {
                i + 1
            };
            let sj = if j < at {
                j
            } else {
                j + 1
            };
            assert(rest[i] == order[si] && rest[j] == order[sj]);
        }
        assert forall|row: u32| row < count - 1 implies rest.contains(row) by {
            assert(order.contains(row));
            let source = choose|source: int| 0 <= source < order.len() && order[source] == row;
            let k = if source < at {
                source
            } else {
                source - 1
            };
            assert(rest[k] == row);
        }
        lemma_sum_any_order(value, rest, last);
        lemma_sum_without(value, order, at, count as int);
    }
}

} // verus!
