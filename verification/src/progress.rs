//! Progress of a run: how much of it is done, in percent, and when that is
//! worth telling.

use vstd::arithmetic::div_mod::*;
use vstd::prelude::*;

verus! {

/// The share of `processed` in `total` in percent, rounded to the nearest
/// whole number, halves upwards, and never above 100. Of nothing, nothing
/// processed is 0 percent.
pub open spec fn percent_of(processed: nat, total: nat) -> nat {
    if total == 0 {
        if processed == 0 {
            0
        } else {
            100
        }
    } else if (200 * processed + total) / (2 * total) > 100 {
        100
    } else {
        (200 * processed + total) / (2 * total)
    }
}

/// What is known of a run at one moment.
#[derive(Clone, Copy, Debug, PartialEq, Eq)]
pub struct AugmentProgress {
    /// The number of files that are done.
    pub processed: usize,
    /// The number of files of the run.
    pub total: usize,
    /// `processed` as a percentage of `total`.
    pub percent: u8,
}

/// The progress that a count of processed files stands for.
pub open spec fn progress_at(processed: usize, total: usize) -> AugmentProgress {
    AugmentProgress { processed, total, percent: percent_of(processed as nat, total as nat) as u8 }
}

/// A percentage is at most 100.
pub proof fn lemma_percent_bounded(processed: nat, total: nat)
    ensures
        percent_of(processed, total) <= 100,
{
}

/// The percentage never falls while the count of processed files grows.
pub proof fn lemma_percent_monotonic(earlier: nat, later: nat, total: nat)
    requires
        earlier <= later,
    ensures
        percent_of(earlier, total) <= percent_of(later, total),
{
    if total > 0 {
        lemma_div_is_ordered(
            (200 * earlier + total) as int,
            (200 * later + total) as int,
            (2 * total) as int,
        );
    }
}

/// A run of which every file is processed stands at 100 percent.
pub proof fn lemma_percent_complete(total: nat)
    requires
        total > 0,
    ensures
        percent_of(total, total) == 100,
{
    lemma_fundamental_div_mod_converse(
        (200 * total + total) as int,
        (2 * total) as int,
        100,
        total as int,
    );
}

/// Nothing processed is 0 percent.
pub proof fn lemma_percent_start(total: nat)
    ensures
        percent_of(0, total) == 0,
{
    if total > 0 {
        lemma_fundamental_div_mod_converse(total as int, (2 * total) as int, 0, total as int);
    }
}

/// The share of `processed` in `total`, in percent.
pub fn percent(processed: usize, total: usize) -> (p: u8)
    ensures
        p == percent_of(processed as nat, total as nat),
        p <= 100,
{
    if total == 0 {
        if processed == 0 {
            0
        } else {
            100
        }
    } else {
        let rounded: u128 = (200 * (processed as u128) + (total as u128)) / (2 * (total as u128));
        if rounded > 100 {
            100
        } else {
            rounded as u8
        }
    }
}

/// The progress that a count of processed files stands for.
pub fn progress(processed: usize, total: usize) -> (event: AugmentProgress)
    ensures
        event == progress_at(processed, total),
{
    AugmentProgress { processed, total, percent: percent(processed, total) }
}

/// Decides when progress is reported: whenever the count of processed files
/// is found changed, and once more at the end.
pub struct Reporter {
    total: usize,
    last: usize,
}

impl Reporter {
    /// The number of files of the run.
    pub closed spec fn total(&self) -> usize {
        self.total
    }

    /// The count that was seen last.
    pub closed spec fn last(&self) -> usize {
        self.last
    }

    /// A reporter for a run of `total` files, of which none is processed.
    pub fn new(total: usize) -> (reporter: Reporter)
        ensures
            reporter.total() == total,
            reporter.last() == 0,
    {
        Reporter { total, last: 0 }
    }

    /// Looks at the count of processed files: a count that differs from the
    /// one seen last is reported and remembered, the same count is not.
    pub fn poll(&mut self, processed: usize) -> (event: Option<AugmentProgress>)
        ensures
            final(self).total() == old(self).total(),
            final(self).last() == processed,
            event == (if processed == old(self).last() {
                None
            } else {
                Some(progress_at(processed, old(self).total()))
            }),
    {
        if processed != self.last {
            self.last = processed;
            Some(progress(processed, self.total))
        } else {
            None
        }
    }

    /// The report that ends the run: the count as it stands, whether it was
    /// reported before or not.
    pub fn finish(&self, processed: usize) -> (event: AugmentProgress)
        ensures
            event == progress_at(processed, self.total()),
    {
        progress(processed, self.total)
    }
}

} // verus!
