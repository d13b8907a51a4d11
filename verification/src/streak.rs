//! Streak detection over the new-rule counts of consecutive reports.
//!
//! Two streaks are tracked: a run of reports with zero new rules, and a run of
//! reports whose (positive) new-rule count did not drop from the report before.
//! After `CONVERGE_STREAK` zero-new-rule reports in a row the tracker reports
//! `Converged`; after `DIVERGE_STREAK` non-decreasing reports in a row it
//! reports `Diverged`.
use vstd::prelude::*;

verus! {

/// Convergence threshold: this many consecutive zero-new-rule reports give
/// `Converged`.
pub const CONVERGE_STREAK: u32 = 2;

/// Divergence threshold: this many consecutive non-decreasing new-rule counts
/// (including the first report that establishes the baseline) give `Diverged`.
pub const DIVERGE_STREAK: u32 = 3;

/// The verdict after one observation.
#[derive(Debug, PartialEq, Eq, Structural, Clone, Copy)]
pub enum Signal {
    Continue,
    Converged,
    Diverged,
}

/// Streak counters over the new-rule counts observed so far.
#[derive(Debug)]
pub struct StreakTracker {
    zero_streak: u32,
    nondecreasing_streak: u32,
    last_count: Option<usize>,
}

/// The abstract state of a `StreakTracker`.
pub struct StreakState {
    pub zero_streak: nat,
    pub nondecreasing_streak: nat,
    pub last_count: Option<usize>,
}

impl View for StreakTracker {
    type V = StreakState;

    closed spec fn view(&self) -> StreakState {
        StreakState {
            zero_streak: self.zero_streak as nat,
            nondecreasing_streak: self.nondecreasing_streak as nat,
            last_count: self.last_count,
        }
    }
}

/// The state before any observation.
pub open spec fn initial_state() -> StreakState {
    StreakState { zero_streak: 0, nondecreasing_streak: 0, last_count: None }
}

/// The state after observing a report with `n` new rules.
pub open spec fn step(st: StreakState, n: usize) -> StreakState {
    StreakState {
        zero_streak: if n == 0 {
            st.zero_streak + 1
        } else {
            0
        },
        nondecreasing_streak: match st.last_count {
            None => if n > 0 {
                1
            } else {
                0
            },
            Some(prev) => if n >= prev && n > 0 {
                st.nondecreasing_streak + 1
            } else {
                0
            },
        },
        last_count: Some(n),
    }
}

/// The signal that a state reports.
pub open spec fn signal_of(st: StreakState) -> Signal {
    if st.zero_streak >= CONVERGE_STREAK {
        Signal::Converged
    } else if st.nondecreasing_streak >= DIVERGE_STREAK {
        Signal::Diverged
    } else {
        Signal::Continue
    }
}

/// The state after observing the counts `h`, oldest first.
pub open spec fn state_after(h: Seq<usize>) -> StreakState
    decreases h.len(),
{
    if h.len() == 0 {
        initial_state()
    } else {
        step(state_after(h.drop_last()), h.last())
    }
}

/// Report `j` of `h` had a positive count that did not drop from the report
/// before it (the very first report counts whenever it is positive).
pub open spec fn grew(h: Seq<usize>, j: int) -> bool {
    h[j] > 0 && (j == 0 || h[j] >= h[j - 1])
}

/// The last `k` counts of `h` are all zero.
pub open spec fn ends_with_zeros(h: Seq<usize>, k: nat) -> bool {
    k <= h.len() && forall|j: int| h.len() - k <= j < h.len() ==> h[j] == 0
}

/// Each of the last `k` reports of `h` grew.
pub open spec fn ends_with_growth(h: Seq<usize>, k: nat) -> bool {
    k <= h.len() && forall|j: int| h.len() - k <= j < h.len() ==> grew(h, j)
}

impl Default for StreakTracker {
    fn default() -> (t: Self)
        ensures
            t@ == initial_state(),
    {
        StreakTracker { zero_streak: 0, nondecreasing_streak: 0, last_count: None }
    }
}

impl StreakTracker {
    /// Records one report with `new_rules` new rules and returns the signal of
    /// the updated streaks.
    pub fn observe(&mut self, new_rules: usize) -> (s: Signal)
        requires
            old(self)@.zero_streak < u32::MAX,
            old(self)@.nondecreasing_streak < u32::MAX,
        ensures
            final(self)@ == step(old(self)@, new_rules),
            s == signal_of(final(self)@),
    {
        if new_rules == 0 {
            self.zero_streak = self.zero_streak + 1;
        } else {
            self.zero_streak = 0;
        }
        match self.last_count {
            None => {
                self.nondecreasing_streak = if new_rules > 0 {
                    1
                } else {
                    0
                };
            },
            Some(prev) => {
                if new_rules >= prev && new_rules > 0 {
                    self.nondecreasing_streak = self.nondecreasing_streak + 1;
                } else {
                    self.nondecreasing_streak = 0;
                }
            },
        }
        self.last_count = Some(new_rules);
        if self.zero_streak >= CONVERGE_STREAK {
            Signal::Converged
        } else if self.nondecreasing_streak >= DIVERGE_STREAK {
            Signal::Diverged
        } else {
            Signal::Continue
        }
    }
}

/// After observing `h`, neither streak is longer than the number of reports,
/// and the last count is the last report's.
pub proof fn lemma_state_bounds(h: Seq<usize>)
    ensures
        state_after(h).zero_streak <= h.len(),
        state_after(h).nondecreasing_streak <= h.len(),
        state_after(h).last_count == (if h.len() == 0 {
            None
        } else {
            Some(h.last())
        }),
    decreases h.len(),
{
    if h.len() > 0 {
        lemma_state_bounds(h.drop_last());
    }
}

/// The zero streak after observing `h` is at least `k` exactly when the last
/// `k` reports had no new rules.
pub proof fn lemma_zero_streak(h: Seq<usize>, k: nat)
    ensures
        state_after(h).zero_streak >= k <==> ends_with_zeros(h, k),
    decreases h.len(),
{
    if h.len() > 0 && k > 0 {
        let p = h.drop_last();
        lemma_zero_streak(p, (k - 1) as nat);
        if ends_with_zeros(h, k) {
            assert forall|j: int| p.len() - (k - 1) <= j < p.len() implies p[j] == 0 by {
                assert(h[j] == 0);
            }
        }
        if h.last() == 0 && ends_with_zeros(p, (k - 1) as nat) {
            assert forall|j: int| h.len() - k <= j < h.len() implies h[j] == 0 by {
                if j < p.len() {
                    assert(p[j] == 0);
                }
            }
        }
        if ends_with_zeros(h, k) {
            assert(h[h.len() - 1] == 0);
        }
    }
}

/// The non-decreasing streak after observing `h` is at least `k` exactly when
/// each of the last `k` reports grew.
pub proof fn lemma_growth_streak(h: Seq<usize>, k: nat)
    ensures
        state_after(h).nondecreasing_streak >= k <==> ends_with_growth(h, k),
    decreases h.len(),
{
    if h.len() > 0 && k > 0 {
        let p = h.drop_last();
        lemma_growth_streak(p, (k - 1) as nat);
        lemma_state_bounds(p);
        assert(forall|j: int| 0 <= j < p.len() ==> (grew(p, j) <==> grew(h, j)));
        if ends_with_growth(h, k) {
            assert(grew(h, h.len() - 1));
            assert forall|j: int| p.len() - (k - 1) <= j < p.len() implies grew(p, j) by {
                assert(grew(h, j));
            }
        }
        if grew(h, h.len() - 1) && ends_with_growth(p, (k - 1) as nat) {
            assert forall|j: int| h.len() - k <= j < h.len() implies grew(h, j) by {
                if j < p.len() {
                    assert(grew(p, j));
                }
            }
        }
    } else if h.len() == 0 && k > 0 {
    }
}

/// The signal after a sequence of reports: `Converged` exactly when the last
/// two reports had no new rules; otherwise `Diverged` exactly when each of the
/// last three reports had a positive count that did not drop from the report
/// before it (the first report counts as the baseline); `Continue` otherwise.
pub proof fn lemma_signal_after(h: Seq<usize>)
    ensures
        signal_of(state_after(h)) == Signal::Converged <==> ends_with_zeros(h, 2),
        signal_of(state_after(h)) == Signal::Diverged <==> !ends_with_zeros(h, 2)
            && ends_with_growth(h, 3),
        signal_of(state_after(h)) == Signal::Continue <==> !ends_with_zeros(h, 2)
            && !ends_with_growth(h, 3),
{
    lemma_zero_streak(h, 2);
    lemma_growth_streak(h, 3);
}

/// Observing a report never shortens the history a tracker stands for: a
/// tracker that stands for the counts `h` stands for `h` followed by the new
/// count after `observe`.
pub proof fn lemma_observe_extends(h: Seq<usize>, n: usize)
    ensures
        state_after(h.push(n)) == step(state_after(h), n),
{
    assert(h.push(n).drop_last() =~= h);
}

} // verus!
