//! A fixed-capacity LIFO stack of return addresses.
//!
//! The capacity is a compile-time bound: pushing onto a full stack is an
//! explicit failure, and popping from an empty stack reports "no value"
//! rather than an error, so callers can decide how to treat underflow.

use vstd::prelude::*;

verus! {

/// Pushing onto a stack that already holds `N` elements fails with this value.
pub struct StackOverflowException;

/// A LIFO store with at most `N` elements.
///
/// The view of a stack is the sequence of its elements, oldest first; the
/// last element of the view is the top of the stack.
pub struct Stack<T, const N: usize> {
    elems: Vec<T>,
}

impl<T, const N: usize> View for Stack<T, N> {
    type V = Seq<T>;

    closed spec fn view(&self) -> Seq<T> {
        self.elems@
    }
}

impl<T, const N: usize> Stack<T, N> {
    /// Creates an empty stack.
    pub fn new() -> (s: Self)
        ensures
            s@ == Seq::<T>::empty(),
    {
        Stack { elems: Vec::new() }
    }

    /// Appends `elem` on top, unless the stack already holds `N` elements.
    pub fn try_push(&mut self, elem: T) -> (r: Result<(), StackOverflowException>)
        ensures
            old(self)@.len() < N ==> r is Ok && final(self)@ == old(self)@.push(elem),
            old(self)@.len() >= N ==> r is Err && final(self)@ == old(self)@,
    {
        if self.elems.len() < N {
            self.elems.push(elem);
            Ok(())
        } else {
            Err(StackOverflowException)
        }
    }

    /// Removes and returns the most recently pushed element, or `None` if
    /// the stack is empty (in which case nothing changes).
    pub fn pop(&mut self) -> (r: Option<T>)
        ensures
            old(self)@.len() > 0 ==> r == Some(old(self)@.last())
                && final(self)@ == old(self)@.drop_last(),
            old(self)@.len() == 0 ==> r is None && final(self)@ == old(self)@,
    {
        self.elems.pop()
    }

    /// How many elements the stack currently holds.
    pub fn len(&self) -> (n: usize)
        ensures
            n == self@.len(),
    {
        self.elems.len()
    }
}

/// Last-in, first-out: after pushing the values of `xs` in order onto a stack
/// whose view was `base`, the `k`-th pop (counting from zero) returns the
/// values of `xs` in strict reverse order of insertion.
///
/// `pop` on a view `v` returns `v.last()` and leaves `v.drop_last()`, so the
/// stack popped `k` times has view `(base + xs).take(base.len() + xs.len() - k)`,
/// and the next pop returns its last element, stated here.
pub proof fn lemma_stack_lifo<T>(base: Seq<T>, xs: Seq<T>, k: int)
    requires
        0 <= k < xs.len(),
    ensures
        (base + xs).take(base.len() + xs.len() - k).last() == xs[xs.len() - 1 - k],
{
}

} // verus!
