//! Monotonic identifier sequences shared by pids, actor ids and monitor refs.
use vstd::prelude::*;

verus! {

/// A source of fresh numeric identifiers.
///
/// Each allocation hands out the current value and advances by one, wrapping
/// at `u64::MAX` exactly as an atomic `fetch_add(1)` does.
pub struct IdCounter {
    pub next: u64,
}

impl IdCounter {
    /// A counter whose first identifier is `1`.
    pub fn new() -> (c: IdCounter)
        ensures
            c.next == 1,
    {
        IdCounter { next: 1 }
    }

    /// Hand out the current value and advance the counter (wrapping).
    pub fn fetch_next(&mut self) -> (id: u64)
        ensures
            id == old(self).next,
            final(self).next == (if old(self).next == u64::MAX { 0 } else { (old(self).next + 1) as u64 }),
    {
        let id = self.next;
        self.next = self.next.wrapping_add(1);
        id
    }
}

/// Two identifiers handed out one after the other by the same counter are
/// distinct and increasing, as long as the counter has not reached `u64::MAX`.
pub proof fn lemma_consecutive_ids_increase(c: IdCounter, first: u64, after: IdCounter, second: u64)
    requires
        first == c.next,
        c.next < u64::MAX,
        after.next == c.next + 1,
        second == after.next,
    ensures
        first < second,
        first != second,
{
}

/// The counter's next value after `k` identifiers were handed out from
/// `next`, each fetch advancing it as `fetch_next` does.
pub open spec fn after_fetches(next: u64, k: nat) -> u64
    decreases k,
{
    if k == 0 {
        next
    } else {
        let p = after_fetches(next, (k - 1) as nat);
        if p == u64::MAX { 0 } else { (p + 1) as u64 }
    }
}

/// Identifiers are never reused before the counter wraps: the `k`-th
/// identifier handed out from `next` is `next + k`, so any two handed out
/// one after another differ and increase.
pub proof fn law_ids_never_repeat(next: u64, i: nat, j: nat)
    requires
        i < j,
        next + j <= u64::MAX,
    ensures
        after_fetches(next, i) == next + i,
        after_fetches(next, j) == next + j,
        after_fetches(next, i) < after_fetches(next, j),
    decreases j,
{
    lemma_after_fetches(next, j);
    lemma_after_fetches(next, i);
}

proof fn lemma_after_fetches(next: u64, k: nat)
    requires
        next + k <= u64::MAX,
    ensures
        after_fetches(next, k) == next + k,
    decreases k,
{
    if k > 0 {
        lemma_after_fetches(next, (k - 1) as nat);
    }
}

} // verus!
