//! When training stops.

use vstd::prelude::*;

verus! {

/// Decides after every mini-batch whether training is complete. Training
/// stops as soon as the error target is reached, the budget of mini-batches
/// is used up, or the time budget is used up.
#[derive(Clone, Copy, Debug)]
pub struct CompletionFn {
    max_epoch: Option<usize>,
    max_duration: Option<u128>,
}

impl CompletionFn {
    /// The budget of mini-batches, if there is one.
    pub closed spec fn epoch_limit(&self) -> Option<usize> {
        self.max_epoch
    }

    /// The time budget in nanoseconds, if there is one.
    pub closed spec fn duration_limit(&self) -> Option<u128> {
        self.max_duration
    }

    /// Whether the budget of mini-batches is used up at index `epoch`: the
    /// mini-batch with index `k - 1` is the last one of a budget of `k`.
    pub open spec fn epoch_budget_spent(&self, epoch: usize) -> bool {
        match self.epoch_limit() {
            Some(k) => epoch >= k - 1,
            None => false,
        }
    }

    /// Whether the time budget is used up after `elapsed` nanoseconds. An
    /// unknown elapsed time (the clock went backwards) counts as the whole
    /// budget.
    pub open spec fn time_budget_spent(&self, elapsed: Option<u128>) -> bool {
        match self.duration_limit() {
            Some(d) => match elapsed {
                Some(e) => e >= d,
                None => true,
            },
            None => false,
        }
    }

    /// The decision as a whole.
    pub open spec fn stops(&self, epoch: usize, elapsed: Option<u128>, target_reached: bool) -> bool {
        target_reached || self.epoch_budget_spent(epoch) || self.time_budget_spent(elapsed)
    }

    /// Stop once `epoch` mini-batches are done.
    pub fn stop_after_epoch(epoch: usize) -> (completion: Self)
        ensures
            completion.epoch_limit() == Some(epoch),
            completion.duration_limit() is None,
    {
        CompletionFn { max_epoch: Some(epoch), max_duration: None }
    }

    /// Stop once `duration_nanos` nanoseconds have passed.
    pub fn stop_after_duration(duration_nanos: u128) -> (completion: Self)
        ensures
            completion.epoch_limit() is None,
            completion.duration_limit() == Some(duration_nanos),
    {
        CompletionFn { max_epoch: None, max_duration: Some(duration_nanos) }
    }

    /// Whether training stops now. `epoch` counts the mini-batches done,
    /// `elapsed` is the time since training began in nanoseconds (`None`
    /// when the clock cannot tell), and `target_reached` says whether the
    /// mean error is at or below the target.
    pub fn should_stop_training(
        &self,
        epoch: usize,
        elapsed: Option<u128>,
        target_reached: bool,
    ) -> (stop: bool)
        ensures
            stop == self.stops(epoch, elapsed, target_reached),
    {
        if target_reached {
            return true;
        }
        if let Some(max_batch_count) = self.max_epoch {
            if max_batch_count == 0 || max_batch_count - 1 <= epoch {
                return true;
            }
        }
        if let Some(max_duration) = self.max_duration {
            let spent = match elapsed {
                Some(e) => max_duration <= e,
                None => true,
            };
            if spent {
                return true;
            }
        }
        false
    }
}

/// A budget of `k` mini-batches alone stops training exactly from index
/// `k - 1` on, as long as the error target is not reached.
pub proof fn lemma_stop_after_epoch(
    completion: CompletionFn,
    k: usize,
    epoch: usize,
    elapsed: Option<u128>,
)
    requires
        completion.epoch_limit() == Some(k),
        completion.duration_limit() is None,
    ensures
        completion.stops(epoch, elapsed, false) <==> epoch >= k - 1,
{
}

/// A time budget alone stops training exactly once the elapsed time has
/// reached it, as long as the error target is not reached; and once it has,
/// training stops whatever the error is.
pub proof fn lemma_stop_after_duration(
    completion: CompletionFn,
    d: u128,
    epoch: usize,
    elapsed: u128,
    target_reached: bool,
)
    requires
        completion.epoch_limit() is None,
        completion.duration_limit() == Some(d),
    ensures
        completion.stops(epoch, Some(elapsed), false) <==> elapsed >= d,
        elapsed >= d ==> completion.stops(epoch, Some(elapsed), target_reached),
{
}

} // verus!
