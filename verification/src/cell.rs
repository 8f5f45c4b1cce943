//! Cells: memory locations that threads share and reach only by atomic
//! operations, every one of them under the weakest ordering that the machine
//! has. Whatever more a program needs between two operations it asks for by
//! an edge between the actions that label them.
//!
//! A cell is read and written through a shared reference, by any thread at
//! any time, so no contract here speaks of the value that a cell holds: what
//! an operation finds is whatever the last operation before it left, and
//! which one that was is for the run to decide. What a compare-and-swap and
//! a fetch-add do to the value they find, and what follows from that for a
//! cell that many threads reach, is written down in `semantics`.

use vstd::prelude::*;
use std::marker::PhantomData;
use std::sync::atomic::Ordering;

verus! {

/// The ordering of every load: relaxed.
pub fn load_order() -> (order: Ordering)
    ensures
        order == Ordering::Relaxed,
{
    Ordering::Relaxed
}

/// The ordering of every store: relaxed.
pub fn store_order() -> (order: Ordering)
    ensures
        order == Ordering::Relaxed,
{
    Ordering::Relaxed
}

/// The ordering of every read-modify-write: relaxed.
pub fn rmw_order() -> (order: Ordering)
    ensures
        order == Ordering::Relaxed,
{
    Ordering::Relaxed
}

/// What a compare-exchange found in the cell, whether or not it went on to
/// write.
pub fn observed<T>(outcome: Result<T, T>) -> (previous: T)
    ensures
        previous == match outcome {
            Ok(found) => found,
            Err(found) => found,
        },
{
    match outcome {
        Ok(found) => found,
        Err(found) => found,
    }
}

/// A shared cell that holds an unsigned word.
pub struct AtomicUsize {
    v: std::sync::atomic::AtomicUsize,
}

impl AtomicUsize {
    /// A new cell that holds `v`.
    pub fn new(v: usize) -> (cell: AtomicUsize) {
        AtomicUsize { v: std::sync::atomic::AtomicUsize::new(v) }
    }

    /// Reads the cell, under the one ordering that loads have.
    pub fn load(&self) -> (value: usize) {
        self.v.load(load_order())
    }

    /// Writes `val` to the cell, under the one ordering that stores have.
    pub fn store(&self, val: usize) {
        self.v.store(val, store_order())
    }

    /// Writes `val` to the cell and hands back what it held just before, in
    /// one atomic step.
    pub fn swap(&self, val: usize) -> (previous: usize) {
        self.v.swap(val, rmw_order())
    }

    /// Writes `new` to the cell if it holds `old`, and in either case hands
    /// back what it held just before, in one atomic step. The write was made
    /// exactly if what comes back equals `old`.
    pub fn compare_and_swap(&self, old: usize, new: usize) -> (previous: usize) {
        observed(self.v.compare_exchange(old, new, rmw_order(), load_order()))
    }

    /// Adds `val` to the cell, wrapping around, and hands back what it held
    /// just before, in one atomic step.
    pub fn fetch_add(&self, val: usize) -> (previous: usize) {
        self.v.fetch_add(val, rmw_order())
    }

    /// Subtracts `val` from the cell, wrapping around, and hands back what it
    /// held just before, in one atomic step.
    pub fn fetch_sub(&self, val: usize) -> (previous: usize) {
        self.v.fetch_sub(val, rmw_order())
    }

    /// Replaces what the cell holds by its bitwise "and" with `val` and hands
    /// back what it held just before, in one atomic step.
    pub fn fetch_and(&self, val: usize) -> (previous: usize) {
        self.v.fetch_and(val, rmw_order())
    }

    /// Replaces what the cell holds by its bitwise "or" with `val` and hands
    /// back what it held just before, in one atomic step.
    pub fn fetch_or(&self, val: usize) -> (previous: usize) {
        self.v.fetch_or(val, rmw_order())
    }

    /// Replaces what the cell holds by its bitwise "exclusive or" with `val`
    /// and hands back what it held just before, in one atomic step.
    pub fn fetch_xor(&self, val: usize) -> (previous: usize) {
        self.v.fetch_xor(val, rmw_order())
    }
}

/// A shared cell that holds a signed word.
pub struct AtomicIsize {
    v: std::sync::atomic::AtomicIsize,
}

impl AtomicIsize {
    /// A new cell that holds `v`.
    pub fn new(v: isize) -> (cell: AtomicIsize) {
        AtomicIsize { v: std::sync::atomic::AtomicIsize::new(v) }
    }

    /// Reads the cell, under the one ordering that loads have.
    pub fn load(&self) -> (value: isize) {
        self.v.load(load_order())
    }

    /// Writes `val` to the cell, under the one ordering that stores have.
    pub fn store(&self, val: isize) {
        self.v.store(val, store_order())
    }

    /// Writes `val` to the cell and hands back what it held just before, in
    /// one atomic step.
    pub fn swap(&self, val: isize) -> (previous: isize) {
        self.v.swap(val, rmw_order())
    }

    /// Writes `new` to the cell if it holds `old`, and in either case hands
    /// back what it held just before, in one atomic step. The write was made
    /// exactly if what comes back equals `old`.
    pub fn compare_and_swap(&self, old: isize, new: isize) -> (previous: isize) {
        observed(self.v.compare_exchange(old, new, rmw_order(), load_order()))
    }

    /// Adds `val` to the cell, wrapping around, and hands back what it held
    /// just before, in one atomic step.
    pub fn fetch_add(&self, val: isize) -> (previous: isize) {
        self.v.fetch_add(val, rmw_order())
    }

    /// Subtracts `val` from the cell, wrapping around, and hands back what it
    /// held just before, in one atomic step.
    pub fn fetch_sub(&self, val: isize) -> (previous: isize) {
        self.v.fetch_sub(val, rmw_order())
    }

    /// Replaces what the cell holds by its bitwise "and" with `val` and hands
    /// back what it held just before, in one atomic step.
    pub fn fetch_and(&self, val: isize) -> (previous: isize) {
        self.v.fetch_and(val, rmw_order())
    }

    /// Replaces what the cell holds by its bitwise "or" with `val` and hands
    /// back what it held just before, in one atomic step.
    pub fn fetch_or(&self, val: isize) -> (previous: isize) {
        self.v.fetch_or(val, rmw_order())
    }

    /// Replaces what the cell holds by its bitwise "exclusive or" with `val`
    /// and hands back what it held just before, in one atomic step.
    pub fn fetch_xor(&self, val: isize) -> (previous: isize) {
        self.v.fetch_xor(val, rmw_order())
    }
}

/// A shared cell that holds a truth value.
pub struct AtomicBool {
    v: std::sync::atomic::AtomicBool,
}

impl AtomicBool {
    /// A new cell that holds `v`.
    pub fn new(v: bool) -> (cell: AtomicBool) {
        AtomicBool { v: std::sync::atomic::AtomicBool::new(v) }
    }

    /// Reads the cell, under the one ordering that loads have.
    pub fn load(&self) -> (value: bool) {
        self.v.load(load_order())
    }

    /// Writes `val` to the cell, under the one ordering that stores have.
    pub fn store(&self, val: bool) {
        self.v.store(val, store_order())
    }

    /// Writes `val` to the cell and hands back what it held just before, in
    /// one atomic step.
    pub fn swap(&self, val: bool) -> (previous: bool) {
        self.v.swap(val, rmw_order())
    }

    /// Writes `new` to the cell if it holds `old`, and in either case hands
    /// back what it held just before, in one atomic step. The write was made
    /// exactly if what comes back equals `old`.
    pub fn compare_and_swap(&self, old: bool, new: bool) -> (previous: bool) {
        observed(self.v.compare_exchange(old, new, rmw_order(), load_order()))
    }

    /// Replaces what the cell holds by its logical "and" with `val` and hands
    /// back what it held just before, in one atomic step.
    pub fn fetch_and(&self, val: bool) -> (previous: bool) {
        self.v.fetch_and(val, rmw_order())
    }

    /// Replaces what the cell holds by its logical "or" with `val` and hands
    /// back what it held just before, in one atomic step.
    pub fn fetch_or(&self, val: bool) -> (previous: bool) {
        self.v.fetch_or(val, rmw_order())
    }

    /// Replaces what the cell holds by its logical "exclusive or" with `val`
    /// and hands back what it held just before, in one atomic step.
    pub fn fetch_xor(&self, val: bool) -> (previous: bool) {
        self.v.fetch_xor(val, rmw_order())
    }

    /// Replaces what the cell holds by the negation of its logical "and" with
    /// `val` and hands back what it held just before, in one atomic step.
    pub fn fetch_nand(&self, val: bool) -> (previous: bool) {
        self.v.fetch_nand(val, rmw_order())
    }
}

/// A shared cell that holds the address of a `T`; zero is the address of
/// nothing. The cell keeps and compares addresses and never looks behind
/// one: whoever has the pointer turns it into its address before the call and
/// an address back into a pointer after it.
pub struct AtomicPtr<T> {
    v: std::sync::atomic::AtomicUsize,
    target: PhantomData<T>,
}

impl<T> AtomicPtr<T> {
    /// A new cell that holds `v`.
    pub fn new(v: usize) -> (cell: AtomicPtr<T>) {
        AtomicPtr { v: std::sync::atomic::AtomicUsize::new(v), target: PhantomData }
    }

    /// Reads the cell, under the one ordering that loads have.
    pub fn load(&self) -> (value: usize) {
        self.v.load(load_order())
    }

    /// Writes `val` to the cell, under the one ordering that stores have.
    pub fn store(&self, val: usize) {
        self.v.store(val, store_order())
    }

    /// Writes `val` to the cell and hands back what it held just before, in
    /// one atomic step.
    pub fn swap(&self, val: usize) -> (previous: usize) {
        self.v.swap(val, rmw_order())
    }

    /// Writes `new` to the cell if it holds `old`, and in either case hands
    /// back what it held just before, in one atomic step. The write was made
    /// exactly if what comes back equals `old`.
    pub fn compare_and_swap(&self, old: usize, new: usize) -> (previous: usize) {
        observed(self.v.compare_exchange(old, new, rmw_order(), load_order()))
    }
}

} // verus!
