//! Generators of sequential `u32` handles that wrap back to their first value.

use std::sync::atomic::{AtomicU32, Ordering};
use vstd::prelude::*;

verus! {

/// The value a handle generator issues after `x`, for a generator that
/// starts at `first`: one more, or `first` again after `u32::MAX`. A value
/// below `first` (set by hand) is followed by `first + 1`, as `first` is
/// issued in its place.
pub open spec fn spec_successor(first: u32, x: u32) -> u32 {
    if x < first {
        if first == u32::MAX { first } else { (first + 1) as u32 }
    } else if x == u32::MAX {
        first
    } else {
        (x + 1) as u32
    }
}

/// The value a `Handle` holds after issuing `x`.
pub open spec fn spec_handle_step(first: u32, x: u32) -> u32 {
    if x == u32::MAX { first } else { (x + 1) as u32 }
}

/// What a generator holding `x` hands out: `x` itself, or `first` when a
/// value below `first` was set by hand.
pub open spec fn spec_issued(first: u32, x: u32) -> u32 {
    if x < first { first } else { x }
}

/// The successor of `x` for a generator starting at `first`.
pub fn successor(first: u32, x: u32) -> (r: u32)
    ensures
        r == spec_successor(first, x),
{
    if x < first {
        if first == u32::MAX { first } else { first + 1 }
    } else if x == u32::MAX {
        first
    } else {
        x + 1
    }
}

/// What a generator holding `x` hands out, for a generator starting at
/// `first`.
pub fn issued(first: u32, x: u32) -> (r: u32)
    ensures
        r == spec_issued(first, x),
{
    if x < first { first } else { x }
}

/// A simple handle factory for incrementing sequences of numbers.
#[derive(Debug, Clone, Copy)]
pub struct Handle {
    next: u32,
    first: u32,
}

impl View for Handle {
    /// `(next, first)`: the value to issue next and the starting value.
    type V = (u32, u32);

    closed spec fn view(&self) -> (u32, u32) {
        (self.next, self.first)
    }
}

impl Handle {
    /// The state of `Handle::new(first)`.
    pub open spec fn spec_fresh(first: u32) -> (u32, u32) {
        (first, first)
    }

    /// Creates a new handle factory, that starts with the supplied number.
    pub fn new(first: u32) -> (r: Handle)
        ensures
            r@ == Handle::spec_fresh(first),
    {
        Handle { next: first, first }
    }

    /// Returns the next handle to be issued, internally incrementing each time
    /// so the handle is always different until it wraps back to the start.
    pub fn next(&mut self) -> (r: u32)
        ensures
            r == old(self)@.0,
            final(self)@ == (spec_handle_step(old(self)@.1, old(self)@.0), old(self)@.1),
    {
        let next = self.next;
        if self.next == u32::MAX {
            self.next = self.first;
        } else {
            self.next = self.next + 1;
        }
        next
    }

    /// Peek the next value of the handle, without incrementing.
    pub fn peek_next(&self) -> (r: u32)
        ensures
            r == self@.0,
    {
        self.next
    }

    /// Set the next handle value manually.
    pub fn set_next(&mut self, next: u32)
        requires
            next >= old(self)@.1,
        ensures
            final(self)@ == (next, old(self)@.1),
    {
        self.next = next;
    }

    /// Resets the handle to its initial state.
    pub fn reset(&mut self)
        ensures
            final(self)@ == (old(self)@.1, old(self)@.1),
    {
        let first = self.first;
        self.set_next(first);
    }

    /// The first value, to which the handle wraps.
    pub fn first(&self) -> (r: u32)
        ensures
            r == self@.1,
    {
        self.first
    }
}

/// The value issued by the `n`-th call of `next` on a fresh `Handle::new(first)`
/// (counting from zero).
pub open spec fn spec_nth_issued(first: u32, n: nat) -> u32
    decreases n,
{
    if n == 0 {
        first
    } else {
        spec_handle_step(first, spec_nth_issued(first, (n - 1) as nat))
    }
}

/// Starting from `first`, the calls of `next` issue `first, first + 1, ...,
/// u32::MAX` in turn, each value of that range once, and the call after
/// `u32::MAX` issues `first` again: the sequence is periodic with period
/// `u32::MAX - first + 1`.
pub proof fn lemma_handle_round_trip(first: u32, n: nat)
    ensures
        n <= u32::MAX - first ==> spec_nth_issued(first, n) == first + n,
        n == u32::MAX - first + 1 ==> spec_nth_issued(first, n) == first,
        spec_nth_issued(first, n) >= first,
    decreases n,
{
    if n > 0 {
        lemma_handle_round_trip(first, (n - 1) as nat);
    }
}

/// A handle made by `Handle::new(first)` holds `spec_nth_issued(first, n)`
/// after `n` calls of `next`: its `n`-th call issues that value and leaves
/// the next one.
pub proof fn lemma_handle_after_calls(first: u32, n: nat)
    ensures
        spec_nth_issued(first, 0) == Handle::spec_fresh(first).0,
        spec_handle_step(first, spec_nth_issued(first, n)) == spec_nth_issued(first, n + 1),
{
}

/// The issued sequence repeats after `u32::MAX - first + 1` calls.
pub proof fn lemma_handle_period(first: u32, n: nat)
    ensures
        spec_nth_issued(first, n + (u32::MAX - first + 1) as nat) == spec_nth_issued(first, n),
    decreases n,
{
    let p = (u32::MAX - first + 1) as nat;
    if n == 0 {
        lemma_handle_round_trip(first, p);
    } else {
        lemma_handle_period(first, (n - 1) as nat);
        assert((n - 1) as nat + p + 1 == n + p);
    }
}

/// From any value at or above `first`, one call of `AtomicHandle::next`
/// (issuing `spec_issued`, storing `spec_successor`) does what one call of
/// `Handle::next` does, so both generators issue the same sequence from
/// `first` on.
pub proof fn lemma_atomic_step_agrees(first: u32, x: u32)
    requires
        x >= first,
    ensures
        spec_issued(first, x) == x,
        spec_successor(first, x) == spec_handle_step(first, x),
{
}

/// Variant of the handle factory using atomics.
#[derive(Debug)]
pub struct AtomicHandle {
    next: AtomicU32,
    first: u32,
}

/// Relies on `AtomicU32::fetch_update`: it stores `successor(first, x)` in
/// place of the current value `x` as one atomic step and returns that `x`.
/// Nothing is promised of `x`, which other callers may change at any time.
#[verifier::external_body]
fn fetch_successor(next: &AtomicU32, first: u32) -> (r: u32) {
    match next.fetch_update(Ordering::Relaxed, Ordering::Relaxed, |x| Some(successor(first, x))) {
        Ok(x) => x,
        Err(x) => x,
    }
}

impl AtomicHandle {
    /// Create a new atomic handle. `first` is the starting point and lowest value
    /// this will produce.
    pub fn new(first: u32) -> (r: Self)
        ensures
            r.first() == first,
    {
        Self { next: AtomicU32::new(first), first }
    }

    /// The lowest value this handle produces.
    pub closed spec fn first(&self) -> u32 {
        self.first
    }

    /// Get the next handle. The stored value moves on by `successor` in one
    /// atomic step, so concurrent callers each see a different step.
    pub fn next(&self) -> (r: u32)
        ensures
            r >= self.first(),
    {
        let val = fetch_successor(&self.next, self.first);
        issued(self.first, val)
    }

    /// Set the next handle.
    pub fn set_next(&self, next: u32)
        requires
            next >= self.first(),
    {
        self.next.store(next, Ordering::Relaxed);
    }

    /// Resets the handle to its initial state.
    pub fn reset(&self) {
        self.set_next(self.first);
    }
}

} // verus!
