//! Address discovery: the lookahead-gap scan of one keychain.

use vstd::prelude::*;

verus! {

/// The address-discovery scan of one keychain. The caller queries the chain
/// source for the script at `next` and reports whether it had activity; the
/// scan stops after `gap` consecutive unused scripts.
#[derive(Debug, Clone, Copy, PartialEq, Eq, Structural)]
pub struct GapScan {
    /// The next index to query.
    pub next: u32,
    /// One past the last index that had activity (the start index if none had).
    pub base: u32,
    /// The lookahead gap.
    pub gap: u32,
}

/// The default lookahead gap.
pub const DEFAULT_GAP: u32 = 20;

/// A scan is finished once `gap` unused scripts follow the last used one,
/// or the index space is exhausted.
pub open spec fn scan_done(next: nat, base: nat, gap: nat) -> bool {
    next >= base + gap || next >= u32::MAX
}

/// Where a scan at `next` (last activity just before `base`) stops, for the
/// activity pattern `used`: the number of scripts derived by then.
pub open spec fn scan_end(next: nat, base: nat, gap: nat, used: spec_fn(nat) -> bool) -> nat
    decreases u32::MAX - next,
{
    if scan_done(next, base, gap) {
        next
    } else if used(next) {
        scan_end(next + 1, next + 1, gap, used)
    } else {
        scan_end(next + 1, base, gap, used)
    }
}

/// Some script among the `gap` from index `i` on, and not beyond `k`, had activity.
pub open spec fn active_within(used: spec_fn(nat) -> bool, i: nat, gap: nat, k: nat) -> bool {
    exists|j: nat| i <= j < i + gap && j <= k && #[trigger] used(j)
}

impl GapScan {
    /// The last activity lies before the next index to query.
    pub open spec fn wf(&self) -> bool {
        self.base <= self.next
    }

    /// Whether the scan has finished.
    pub open spec fn done(&self) -> bool {
        scan_done(self.next as nat, self.base as nat, self.gap as nat)
    }

    /// A scan that starts at the keychain's current derived index.
    pub fn new(start: u32, gap: u32) -> (r: GapScan)
        ensures
            r.wf(),
            r.next == start,
            r.base == start,
            r.gap == gap,
    {
        GapScan { next: start, base: start, gap }
    }

    /// Whether the scan has finished.
    pub fn is_done(&self) -> (r: bool)
        ensures
            r == self.done(),
    {
        self.next as u64 >= self.base as u64 + self.gap as u64 || self.next == u32::MAX
    }

    /// Records the chain's answer for the script at `next` and moves on.
    pub fn record(&mut self, used: bool)
        requires
            old(self).wf(),
            !old(self).done(),
        ensures
            final(self).wf(),
            final(self).gap == old(self).gap,
            final(self).next == old(self).next + 1,
            final(self).base == if used { old(self).next + 1 } else { old(self).base as int },
    {
        self.next = self.next + 1;
        if used {
            self.base = self.next;
        }
    }
}

proof fn lemma_scan_tail(next: nat, base: nat, gap: nat, used: spec_fn(nat) -> bool, k: nat)
    requires
        base == k + 1,
        base <= next <= base + gap,
        base + gap <= u32::MAX,
        forall|i: nat| i > k ==> !#[trigger] used(i),
    ensures
        scan_end(next, base, gap, used) == k + 1 + gap,
    decreases base + gap - next,
{
    if next < base + gap {
        lemma_scan_tail(next + 1, base, gap, used, k);
    }
}

proof fn lemma_scan_reaches(next: nat, base: nat, gap: nat, used: spec_fn(nat) -> bool, start: nat, k: nat)
    requires
        start <= base <= next <= k,
        used(k),
        k + 1 + gap <= u32::MAX,
        forall|i: nat| base <= i < next ==> !#[trigger] used(i),
        forall|i: nat| i > k ==> !#[trigger] used(i),
        forall|i: nat| start <= i <= k ==> #[trigger] active_within(used, i, gap, k),
    ensures
        scan_end(next, base, gap, used) == k + 1 + gap,
    decreases k - next,
{
    assert(active_within(used, base, gap, k));
    let j = choose|j: nat| base <= j < base + gap && j <= k && #[trigger] used(j);
    assert(j >= next);
    if used(next) {
        if next == k {
            lemma_scan_tail(next + 1, next + 1, gap, used, k);
        } else {
            lemma_scan_reaches(next + 1, next + 1, gap, used, start, k);
        }
    } else {
        lemma_scan_reaches(next + 1, base, gap, used, start, k);
    }
}

/// Gap-scan termination: when index `k` is the last script with activity and
/// no run of `gap` unused scripts occurs before it, a scan from `start` stops
/// having derived exactly the scripts up to index `k + gap`.
pub proof fn lemma_gap_scan_stops(start: nat, gap: nat, used: spec_fn(nat) -> bool, k: nat)
    requires
        start <= k,
        used(k),
        k + 1 + gap <= u32::MAX,
        forall|i: nat| i > k ==> !#[trigger] used(i),
        forall|i: nat| start <= i <= k ==> #[trigger] active_within(used, i, gap, k),
    ensures
        scan_end(start, start, gap, used) == k + gap + 1,
{
    lemma_scan_reaches(start, start, gap, used, start, k);
}

/// A scan from `start` over scripts none of which has activity derives
/// exactly `gap` of them.
pub proof fn lemma_gap_scan_unused(start: nat, gap: nat, used: spec_fn(nat) -> bool)
    requires
        start + gap <= u32::MAX,
        forall|i: nat| i >= start ==> !#[trigger] used(i),
    ensures
        scan_end(start, start, gap, used) == start + gap,
{
    if start == 0 {
        lemma_scan_from_zero(0, gap, used);
    } else {
        lemma_scan_tail(start, start, gap, used, (start - 1) as nat);
    }
}

proof fn lemma_scan_from_zero(next: nat, gap: nat, used: spec_fn(nat) -> bool)
    requires
        next <= gap <= u32::MAX,
        forall|i: nat| !#[trigger] used(i),
    ensures
        scan_end(next, 0, gap, used) == gap,
    decreases gap - next,
{
    if next < gap {
        lemma_scan_from_zero(next + 1, gap, used);
    }
}

} // verus!
