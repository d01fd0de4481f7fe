//! The options of a back-propagation run, and the choice between the
//! single-threaded and the partition-parallel trainer.

pub mod multithreaded;
pub mod singlethreaded;

use vstd::prelude::*;
use crate::func::CompletionFn;
use crate::func::ErrorFn;
use crate::func::MiniBatchSize;

verus! {

/// How a network is trained by back-propagation. `S` is the type of the
/// growth rate of the mini-batch size, `R` the learning-rate schedule.
#[derive(Clone, Debug)]
pub struct BackpropOptions<S, R> {
    pub completion_fn: CompletionFn,
    pub mini_batch_size_fn: MiniBatchSize<S>,
    pub learning_rate_fn: R,
    pub error_fn: ErrorFn,
    pub multi_threading: Option<BackpropMultithreadingOptions>,
}

/// How the partition-parallel trainer divides the work.
#[derive(Clone, Debug)]
pub struct BackpropMultithreadingOptions {
    /// Number of worker threads; by default the number of processors.
    pub worker_threads: Option<usize>,
    /// Number of partitions the data set is cut into.
    pub partitions: usize,
    /// Number of mini-batches a worker trains on between two
    /// synchronizations with the shared weights.
    pub batches_per_sync: usize,
}

/// How a back-propagation run is carried out.
#[derive(Clone, Copy, Debug, PartialEq, Eq)]
pub enum BackpropPlan {
    /// One thread trains on the whole data set.
    SingleThreaded,
    /// Worker threads train on partitions of the data set and share their
    /// weights.
    MultiThreaded { num_workers: usize, num_partitions: usize, batches_per_sync: usize },
}

/// `num_cpus::get`: the number of processors available to this process,
/// which differs from machine to machine and from run to run.
#[verifier::external_body]
fn available_processors() -> usize {
    num_cpus::get()
}

/// The number of worker threads for `requested` threads over `partitions`
/// partitions: never more threads than partitions.
pub fn cap_worker_threads(requested: usize, partitions: usize) -> (workers: usize)
    ensures
        workers == if requested > partitions {
            partitions
        } else {
            requested
        },
{
    if requested > partitions {
        partitions
    } else {
        requested
    }
}

impl BackpropMultithreadingOptions {
    /// The number of worker threads to start: the number asked for, or the
    /// number of processors when none is asked for, but never more than
    /// there are partitions.
    pub fn effective_worker_threads(&self) -> (workers: usize)
        ensures
            workers <= self.partitions,
            self.worker_threads matches Some(threads) ==> workers == if threads > self.partitions {
                self.partitions
            } else {
                threads
            },
    {
        let requested = match self.worker_threads {
            None => available_processors(),
            Some(threads) => threads,
        };
        cap_worker_threads(requested, self.partitions)
    }
}

impl<S, R> BackpropOptions<S, R> {
    /// Chooses the trainer: the partition-parallel one when multi-threading
    /// options are given, the single-threaded one otherwise.
    pub fn plan(&self) -> (plan: BackpropPlan)
        ensures
            match self.multi_threading {
                None => plan == BackpropPlan::SingleThreaded,
                Some(multi_threading) => plan matches BackpropPlan::MultiThreaded {
                    num_workers,
                    num_partitions,
                    batches_per_sync,
                } && num_partitions == multi_threading.partitions && batches_per_sync
                    == multi_threading.batches_per_sync && num_workers <= num_partitions && (
                multi_threading.worker_threads matches Some(threads) ==> num_workers
                    == if threads > num_partitions {
                    num_partitions
                } else {
                    threads
                }),
            },
    {
        match &self.multi_threading {
            None => BackpropPlan::SingleThreaded,
            Some(multi_threading) => BackpropPlan::MultiThreaded {
                num_workers: multi_threading.effective_worker_threads(),
                num_partitions: multi_threading.partitions,
                batches_per_sync: multi_threading.batches_per_sync,
            },
        }
    }
}

} // verus!
