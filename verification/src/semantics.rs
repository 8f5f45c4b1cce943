//! What a read-modify-write does to the value that it finds in a cell, taken
//! as one step that nothing can come between, and what follows for a cell
//! that many such steps reach one after another, whichever threads they come
//! from and in whichever order they take effect.

use vstd::prelude::*;
use vstd::seq_lib::to_multiset_contains;

verus! {

/// One atomic step: what it hands back to its caller and what it leaves in
/// the cell.
pub struct Step<T> {
    pub returned: T,
    pub stored: T,
}

/// The step of `compare_and_swap(expected, new)` on a cell that holds
/// `current`.
pub open spec fn compare_and_swap_step<T>(current: T, expected: T, new: T) -> Step<T> {
    Step {
        returned: current,
        stored: if current == expected {
            new
        } else {
            current
        },
    }
}

/// The step of `fetch_add(val)` on a cell that holds `current`: the sum
/// wraps around at the end of the word.
pub open spec fn fetch_add_step(current: usize, val: usize) -> Step<usize> {
    Step {
        returned: current,
        stored: if current + val > usize::MAX {
            (current + val - usize::MAX - 1) as usize
        } else {
            (current + val) as usize
        },
    }
}

/// What a cell that began at `start` holds after `count` steps of
/// `fetch_add(1)`.
pub open spec fn counter_after(start: usize, count: nat) -> usize
    decreases count,
{
    if count == 0 {
        start
    } else {
        fetch_add_step(counter_after(start, (count - 1) as nat), 1).stored
    }
}

/// What `count` steps of `fetch_add(1)` on a cell that began at `start` hand
/// back, in the order in which they take effect.
pub open spec fn counter_returns(start: usize, count: nat) -> Seq<usize>
    decreases count,
{
    if count == 0 {
        Seq::empty()
    } else {
        counter_returns(start, (count - 1) as nat).push(
            fetch_add_step(counter_after(start, (count - 1) as nat), 1).returned,
        )
    }
}

/// A compare-and-swap that expects what the cell holds hands that value back
/// and leaves the new one.
pub proof fn lemma_compare_and_swap_hit<T>(current: T, new: T)
    ensures
        compare_and_swap_step(current, current, new) == (Step { returned: current, stored: new }),
{
}

/// A compare-and-swap that expects anything else hands back what the cell
/// holds and leaves it as it is.
pub proof fn lemma_compare_and_swap_miss<T>(current: T, expected: T, new: T)
    requires
        expected != current,
    ensures
        compare_and_swap_step(current, expected, new) == (Step {
            returned: current,
            stored: current,
        }),
{
}

/// Whether or not a compare-and-swap wrote is told by what it hands back.
pub proof fn lemma_compare_and_swap_tells<T>(current: T, expected: T, new: T)
    ensures
        (compare_and_swap_step(current, expected, new).returned == expected) <==> (current
            == expected),
        compare_and_swap_step(current, expected, new).returned != expected
            ==> compare_and_swap_step(current, expected, new).stored == current,
{
}

/// A counter that began at zero holds, after `count` increments, `count`, and
/// the increment that took effect at place `i` handed back `i`.
pub proof fn lemma_counter(count: nat)
    requires
        count <= usize::MAX,
    ensures
        counter_after(0, count) == count,
        counter_returns(0, count).len() == count,
        forall|i: int| 0 <= i < count ==> #[trigger] counter_returns(0, count)[i] == i,
    decreases count,
{
    if count > 0 {
        lemma_counter((count - 1) as nat);
    }
}

/// Where each of `threads` threads increments a cell that began at zero
/// `calls` times, the cell ends at the product of the two, and the values
/// handed back, taken together, are the numbers below the product, each once.
pub proof fn lemma_increments_are_counted(threads: nat, calls: nat)
    requires
        threads * calls <= usize::MAX,
    ensures
        counter_after(0, threads * calls) == threads * calls,
        counter_returns(0, threads * calls).len() == threads * calls,
        counter_returns(0, threads * calls).no_duplicates(),
        forall|v: usize|
            #[trigger] counter_returns(0, threads * calls).to_multiset().count(v) == if v < threads
                * calls {
                1nat
            } else {
                0nat
            },
{
    let total = threads * calls;
    let returned = counter_returns(0, total);
    lemma_counter(total);
    assert(returned.no_duplicates());
    returned.lemma_multiset_has_no_duplicates();
    assert forall|v: usize| #[trigger] returned.to_multiset().count(v) == if v < total {
        1nat
    } else {
        0nat
    } by {
        to_multiset_contains(returned, v);
        if v < total {
            assert(returned[v as int] == v);
            assert(returned.contains(v));
        } else {
            if returned.contains(v) {
                let i = choose|i: int| 0 <= i < returned.len() && returned[i] == v;
                assert(returned[i] == i);
            }
        }
    }
}

} // verus!
