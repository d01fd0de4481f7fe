//! What the loop that drives a training run decides: which result to keep,
//! and what to do next.

use vstd::prelude::*;
use crate::func::CompletionFn;

verus! {

/// How the trainer searches for a network.
#[derive(Clone, Copy, Debug)]
pub enum NetTrainerMode {
    /// One task after the other, each from a fresh network.
    Standard,
    /// Generations of trials, the best of which breed the next.
    Evolutionary { trials_per_generation: usize },
}

/// What the driving loop does next.
#[derive(Clone, Copy, Debug, PartialEq, Eq)]
pub enum TrainerAction {
    /// Training is complete: stop the executor and return the best result.
    Stop,
    /// A worker is idle: build the next task and hand it over.
    Submit,
    /// All workers are busy: sleep for a moment and look again.
    Wait,
}

/// What is known of the best result so far when the loop decides: the time
/// since training began, and whether the result's error reaches the target.
#[derive(Clone, Copy, Debug)]
pub struct BestSoFar {
    pub elapsed: Option<u128>,
    pub target_reached: bool,
}

/// The action that the state of a run calls for. Training stops once there
/// is a result and the completion function says stop for it; else the next
/// task is submitted if a worker waits for one; else the loop waits.
pub open spec fn action_for(
    completion_fn: CompletionFn,
    epoch: usize,
    best: Option<BestSoFar>,
    has_waiting_executor: bool,
) -> TrainerAction {
    if best matches Some(b) && completion_fn.stops(epoch, b.elapsed, b.target_reached) {
        TrainerAction::Stop
    } else if has_waiting_executor {
        TrainerAction::Submit
    } else {
        TrainerAction::Wait
    }
}

/// Decides what the driving loop does after it has taken in all pending
/// events.
pub fn next_action(
    completion_fn: &CompletionFn,
    epoch: usize,
    best: Option<BestSoFar>,
    has_waiting_executor: bool,
) -> (action: TrainerAction)
    ensures
        action == action_for(*completion_fn, epoch, best, has_waiting_executor),
{
    if let Some(b) = best {
        if completion_fn.should_stop_training(epoch, b.elapsed, b.target_reached) {
            return TrainerAction::Stop;
        }
    }
    if has_waiting_executor {
        TrainerAction::Submit
    } else {
        TrainerAction::Wait
    }
}

/// Keeps the better of the best result so far and a new result. A new
/// result replaces the best one only if `improves` says that it is better;
/// of two equally good results the one seen first stays.
pub fn keep_best<R, B: Fn(&R, &R) -> bool>(best: Option<R>, result: R, improves: &B) -> (kept: R)
    requires
        forall|new: &R, old_best: &R| #[trigger] improves.requires((new, old_best)),
    ensures
        match best {
            None => kept == result,
            Some(old_best) => exists|better: bool|
                #[trigger] improves.ensures((&result, &old_best), better) && kept == if better {
                    result
                } else {
                    old_best
                },
        },
{
    match best {
        None => result,
        Some(old_best) => {
            let better = improves(&result, &old_best);
            if better {
                result
            } else {
                old_best
            }
        },
    }
}

} // verus!
