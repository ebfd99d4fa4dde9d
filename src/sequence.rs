//! Sequence numbers of secure-channel chunks and their wrap rules.

use vstd::arithmetic::div_mod::{lemma_add_mod_noop_right, lemma_small_mod, lemma_mod_bound};
use vstd::prelude::*;

verus! {

/// Lowest sequence number: legacy policies never use 0.
pub open spec fn spec_min_sequence(is_legacy: bool) -> u32 {
    if is_legacy { 1 } else { 0 }
}

/// Highest sequence number: legacy policies wrap 1024 below `u32::MAX`.
pub open spec fn spec_max_sequence(is_legacy: bool) -> u32 {
    if is_legacy { (u32::MAX - 1024) as u32 } else { u32::MAX }
}

/// How many sequence numbers there are before the numbering wraps.
pub open spec fn spec_sequence_range(is_legacy: bool) -> nat {
    (spec_max_sequence(is_legacy) - spec_min_sequence(is_legacy) + 1) as nat
}

/// The sequence number `count` places after `current`, wrapping from the
/// highest number back to the lowest.
pub open spec fn spec_advance(is_legacy: bool, current: u32, count: nat) -> u32 {
    (spec_min_sequence(is_legacy) + (current - spec_min_sequence(is_legacy) + count)
        % (spec_sequence_range(is_legacy) as int)) as u32
}

/// The sequence number that follows `current`.
pub open spec fn spec_next_sequence(is_legacy: bool, current: u32) -> u32 {
    if current == spec_max_sequence(is_legacy) {
        spec_min_sequence(is_legacy)
    } else {
        (current + 1) as u32
    }
}

/// The sequence-number state of one direction of a secure channel.
#[derive(Debug, Clone, Copy)]
pub struct SequenceNumberHandle {
    is_legacy: bool,
    current_value: u32,
}

/// Abstract state of a `SequenceNumberHandle`.
pub ghost struct SequenceView {
    pub is_legacy: bool,
    pub current: u32,
}

impl View for SequenceNumberHandle {
    type V = SequenceView;

    closed spec fn view(&self) -> SequenceView {
        SequenceView { is_legacy: self.is_legacy, current: self.current_value }
    }
}

impl SequenceView {
    /// The current number lies in the range of the policy.
    pub open spec fn wf(self) -> bool {
        spec_min_sequence(self.is_legacy) <= self.current <= spec_max_sequence(self.is_legacy)
    }
}

impl SequenceNumberHandle {
    /// A handle at the lowest number of the chosen policy.
    pub fn new(is_legacy: bool) -> (r: Self)
        ensures
            r@.wf(),
            r@ == (SequenceView { is_legacy, current: spec_min_sequence(is_legacy) }),
    {
        Self { is_legacy, current_value: if is_legacy { 1 } else { 0 } }
    }

    /// Whether the legacy wrap rule applies.
    pub fn is_legacy(&self) -> (r: bool)
        ensures
            r == self@.is_legacy,
    {
        self.is_legacy
    }

    /// Lowest number of the policy.
    pub fn min_value(&self) -> (r: u32)
        ensures
            r == spec_min_sequence(self@.is_legacy),
    {
        if self.is_legacy { 1 } else { 0 }
    }

    /// Highest number of the policy.
    pub fn max_value(&self) -> (r: u32)
        ensures
            r == spec_max_sequence(self@.is_legacy),
    {
        if self.is_legacy { u32::MAX - 1024 } else { u32::MAX }
    }

    /// The current sequence number.
    pub fn current(&self) -> (r: u32)
        ensures
            r == self@.current,
    {
        self.current_value
    }

    /// Set the current sequence number.
    pub fn set(&mut self, value: u32)
        requires
            spec_min_sequence(old(self)@.is_legacy) <= value <= spec_max_sequence(
                old(self)@.is_legacy,
            ),
        ensures
            final(self)@ == (SequenceView { is_legacy: old(self)@.is_legacy, current: value }),
            final(self)@.wf(),
    {
        self.current_value = value;
    }

    /// Move the current number on by `count`, wrapping as the policy says.
    pub fn increment(&mut self, count: usize)
        requires
            old(self)@.wf(),
        ensures
            final(self)@.wf(),
            final(self)@ == (SequenceView {
                is_legacy: old(self)@.is_legacy,
                current: spec_advance(old(self)@.is_legacy, old(self)@.current, count as nat),
            }),
            old(self)@.current + count <= spec_max_sequence(old(self)@.is_legacy)
                ==> final(self)@.current == old(self)@.current + count,
    {
        let min = self.min_value() as u64;
        let range: u64 = self.max_value() as u64 - min + 1;
        let offset: u64 = self.current_value as u64 - min;
        let wrapped: u64 = (offset + (count as u64) % range) % range;
        proof {
            lemma_add_mod_noop_right(offset as int, count as int, range as int);
            lemma_mod_bound(offset + count, range as int);
            if offset + count < range {
                lemma_small_mod((offset + count) as nat, range as nat);
            }
        }
        self.current_value = (min + wrapped) as u32;
    }

    /// Switch between the legacy and the current wrap rule. A number outside
    /// the new range restarts at its lowest number.
    pub fn set_is_legacy(&mut self, is_legacy: bool)
        ensures
            final(self)@.wf(),
            final(self)@.is_legacy == is_legacy,
            final(self)@.current == (if spec_min_sequence(is_legacy) <= old(self)@.current
                <= spec_max_sequence(is_legacy) {
                old(self)@.current
            } else {
                spec_min_sequence(is_legacy)
            }),
    {
        self.is_legacy = is_legacy;
        if self.current_value < self.min_value() || self.current_value > self.max_value() {
            self.current_value = self.min_value();
        }
    }
}

/// A message of `k` chunks written at counter value `s` numbers its chunks
/// `s, s + 1, ..., s + k - 1` (each the successor of the one before, wrapping
/// as the policy says), and leaves the counter at the successor of the last.
pub proof fn lemma_sequence_run(is_legacy: bool, s: u32, k: nat)
    requires
        spec_min_sequence(is_legacy) <= s <= spec_max_sequence(is_legacy),
    ensures
        spec_advance(is_legacy, s, 0) == s,
        forall|i: nat|
            i < k ==> #[trigger] spec_advance(is_legacy, s, i + 1) == spec_next_sequence(
                is_legacy,
                spec_advance(is_legacy, s, i),
            ),
{
    let min = spec_min_sequence(is_legacy) as int;
    let r = spec_sequence_range(is_legacy) as int;
    lemma_small_mod((s - min) as nat, r as nat);
    assert forall|i: nat| i < k implies #[trigger] spec_advance(is_legacy, s, i + 1)
        == spec_next_sequence(is_legacy, spec_advance(is_legacy, s, i)) by {
        let a = s - min + i;
        lemma_mod_bound(a, r);
        let m = a % r;
        lemma_add_mod_noop_right(1, a, r);
        assert((a + 1) % r == (m + 1) % r);
        if m + 1 == r {
            assert((m + 1) % r == 0);
        } else {
            lemma_small_mod((m + 1) as nat, r as nat);
        }
    }
}

} // verus!
