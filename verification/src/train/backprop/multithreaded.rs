//! Training on several threads that share their weights.
//!
//! Every worker trains a private copy of the network on one partition of
//! the data set for a few passes, and then adds its share of the change of
//! its weights to the shared weights. This module holds what the workers
//! and the coordinator compute and decide between their exchanges; starting
//! the threads and passing messages is left to the caller.

use vstd::prelude::*;
use vstd::std_specs::ops::AddSpec;
use vstd::std_specs::ops::MulSpec;
use vstd::std_specs::ops::SubSpec;
use crate::buffer::row::zip_add_scaled;
use crate::buffer::row::zip_sub;
use crate::buffer::row::RowBuffer;
use crate::data::PreparedDataSet;
use crate::func::CompletionFn;
use crate::net::Net;
use crate::scalar::accepts_all;
use crate::scalar::add_is_total;
use crate::scalar::mul_is_total;
use crate::scalar::neg_is_total;
use crate::scalar::sub_is_total;
use crate::train::backprop::singlethreaded::errors_relate;
use crate::train::backprop::singlethreaded::Evaluation;
use crate::train::backprop::singlethreaded::scheduled_pass_relates;
use crate::train::backprop::singlethreaded::train_scheduled_pass;
use crate::train::context::accepts_pairs;
use crate::train::context::arithmetic_obeys;
use crate::train::context::same_shape;
use crate::train::context::NetTrainingContext;

verus! {

/// What the workers of a training run share: the weights, the number of
/// rounds that workers have completed, the partition that the next worker
/// to complete a round moves on to, and how often each partition was handed
/// out.
pub struct SharedThreadState<T> {
    worker_done_counter: usize,
    weight_buffer: RowBuffer<T>,
    next_partition_index: usize,
    partition_row_shifts: Vec<usize>,
}

impl<T> SharedThreadState<T> {
    /// Number of rounds completed by all workers together.
    pub closed spec fn done_count(&self) -> usize {
        self.worker_done_counter
    }

    /// The shared weights.
    pub closed spec fn weights(&self) -> RowBuffer<T> {
        self.weight_buffer
    }

    /// The partition that the next worker to complete a round moves on to.
    pub closed spec fn next_partition(&self) -> usize {
        self.next_partition_index
    }

    /// How often each partition was handed out at the end of a round.
    pub closed spec fn shifts(&self) -> Seq<usize> {
        self.partition_row_shifts@
    }

    /// Number of partitions.
    pub open spec fn num_partitions(&self) -> int {
        self.shifts().len() as int
    }

    /// The shared state's invariant: there is a partition, the next one to
    /// hand out exists, and no partition was handed out more often than
    /// rounds were completed.
    pub open spec fn wf(&self) -> bool {
        &&& self.num_partitions() > 0
        &&& self.next_partition() < self.num_partitions()
        &&& forall|i: int|
            0 <= i < self.num_partitions() ==> #[trigger] self.shifts()[i] <= self.done_count()
    }

    /// The state at the start of a run of `num_workers` workers over
    /// `num_partitions` partitions. Worker `w` starts on partition `w`, so
    /// the first partition to hand out is the one after the last worker's.
    pub fn new(weights: RowBuffer<T>, num_workers: usize, num_partitions: usize) -> (state: Self)
        requires
            num_partitions > 0,
        ensures
            state.wf(),
            state.done_count() == 0,
            state.weights() == weights,
            state.next_partition() == num_workers % num_partitions,
            state.shifts() == Seq::new(num_partitions as nat, |i: int| 0usize),
    {
        let mut partition_row_shifts: Vec<usize> = Vec::with_capacity(num_partitions);
        let mut k: usize = 0;
        while k < num_partitions
            invariant
                k <= num_partitions,
                partition_row_shifts@ == Seq::new(k as nat, |i: int| 0usize),
            decreases num_partitions - k,
        {
            partition_row_shifts.push(0);
            k += 1;
            assert(partition_row_shifts@ =~= Seq::new(k as nat, |i: int| 0usize));
        }
        SharedThreadState {
            worker_done_counter: 0,
            weight_buffer: weights,
            next_partition_index: num_workers % num_partitions,
            partition_row_shifts,
        }
    }

    /// The shared weights.
    pub fn get_weights(&self) -> (weights: &RowBuffer<T>)
        ensures
            *weights == self.weights(),
    {
        &self.weight_buffer
    }

    /// Number of rounds completed by all workers together.
    pub fn worker_done_counter(&self) -> (n: usize)
        ensures
            n == self.done_count(),
    {
        self.worker_done_counter
    }
}

/// The partition handed out after partition `partition` of `num_partitions`:
/// the next one, or the first one after the last.
pub open spec fn partition_after(partition: int, num_partitions: int) -> int {
    if partition + 1 == num_partitions {
        0
    } else {
        partition + 1
    }
}

/// The index of the first pass of a worker's next round: the rounds done,
/// times the passes per round, shared out among the workers.
pub open spec fn round_batch_number(done: int, batches_per_sync: int, num_workers: int) -> int {
    (done * batches_per_sync) / num_workers
}

impl<T: Copy> SharedThreadState<T> {
    /// Starts a worker's round: the shared weights are copied to
    /// `start_weights`, which keeps them for the end of the round, and to
    /// the weights of the worker's network. Returns the index of the first
    /// pass of the round.
    pub fn begin_round<A: Copy>(
        &self,
        start_weights: &mut RowBuffer<T>,
        net: &mut Net<T, A>,
        batches_per_sync: usize,
        num_workers: usize,
    ) -> (batch_num: usize)
        requires
            old(net).wf(),
            old(start_weights).wf(),
            self.weights()@.len() == old(start_weights)@.len(),
            self.weights()@.len() == old(net).spec_weights()@.len(),
            num_workers > 0,
            self.done_count() * batches_per_sync <= usize::MAX,
        ensures
            final(net).wf(),
            same_shape(old(net), final(net)),
            final(net).spec_weights()@ == self.weights()@,
            final(start_weights).wf(),
            final(start_weights).row_sizes() == old(start_weights).row_sizes(),
            final(start_weights)@ == self.weights()@,
            batch_num == round_batch_number(
                self.done_count() as int,
                batches_per_sync as int,
                num_workers as int,
            ),
    {
        self.weight_buffer.copy_into(start_weights);
        start_weights.copy_into(net.get_weights_mut());
        assert(0 <= self.worker_done_counter * batches_per_sync) by (nonlinear_arith);
        self.worker_done_counter * batches_per_sync / num_workers
    }
}

impl<T: Copy + core::ops::Add<Output = T> + core::ops::Mul<Output = T>> SharedThreadState<T> {
    /// Ends a worker's round. The worker's weight changes, scaled by
    /// `share` (one over the number of partitions), are added to the shared
    /// weights, and the round is counted. Returns the partition the worker
    /// moves on to, and whether this completes a round of rounds: whether
    /// the number of rounds done is now a multiple of the number of
    /// partitions, so that the coordinator is to be told.
    ///
    /// Partitions are handed out in turn, whether or not another worker is
    /// still busy with the one handed out.
    pub fn complete_round(&mut self, weight_diffs: &RowBuffer<T>, share: T) -> (next: (usize, bool))
        requires
            old(self).wf(),
            old(self).done_count() < usize::MAX,
            old(self).weights()@.len() == weight_diffs@.len(),
            add_is_total::<T>(),
            mul_is_total::<T>(),
        ensures
            final(self).wf(),
            final(self).done_count() == old(self).done_count() + 1,
            next.0 == old(self).next_partition(),
            final(self).next_partition() == partition_after(
                old(self).next_partition() as int,
                old(self).num_partitions(),
            ),
            final(self).shifts() == old(self).shifts().update(
                old(self).next_partition() as int,
                (old(self).shifts()[old(self).next_partition() as int] + 1) as usize,
            ),
            next.1 == (final(self).done_count() as int % final(self).num_partitions() == 0),
            final(self).weights().layout() == old(self).weights().layout(),
            old(self).weights().wf() ==> final(self).weights().wf(),
            T::obeys_add_spec() && T::obeys_mul_spec() ==> final(self).weights()@ == zip_add_scaled(
                old(self).weights()@,
                weight_diffs@,
                share,
            ),
    {
        let num_partitions = self.partition_row_shifts.len();
        self.weight_buffer.add_with_multiplier(weight_diffs, share);
        self.worker_done_counter = self.worker_done_counter + 1;
        let partition_index = self.next_partition_index;
        self.next_partition_index = if partition_index + 1 == num_partitions {
            0
        } else {
            partition_index + 1
        };
        assert(self.partition_row_shifts@[partition_index as int] <= old(self).done_count());
        let shift = self.partition_row_shifts[partition_index];
        self.partition_row_shifts[partition_index] = shift + 1;
        (partition_index, self.worker_done_counter % num_partitions == 0)
    }
}

/// With a single partition every round moves on to that partition, and
/// every completed round is one the coordinator is told of.
pub proof fn lemma_single_partition<T>(before: SharedThreadState<T>, after: SharedThreadState<T>)
    requires
        before.wf(),
        before.num_partitions() == 1,
        after.num_partitions() == 1,
        after.next_partition() == partition_after(
            before.next_partition() as int,
            before.num_partitions(),
        ),
    ensures
        before.next_partition() == 0,
        after.next_partition() == 0,
        after.done_count() as int % after.num_partitions() == 0,
{
}

/// With one worker and one pass per round, the first pass of a round has
/// the number of the rounds done before it.
pub proof fn lemma_single_worker_batch_number(done: int)
    requires
        0 <= done,
    ensures
        round_batch_number(done, 1, 1) == done,
{
}

/// A round whose share is one puts the worker's weights into the shared
/// state: adding the whole of what the round changed to the weights the
/// round started from gives the weights the round ended with, wherever
/// multiplying by the share changes nothing and adding a difference undoes
/// the subtraction.
pub proof fn lemma_whole_share<
    T: core::ops::Add<Output = T> + core::ops::Sub<Output = T> + core::ops::Mul<Output = T>,
>(start: Seq<T>, end: Seq<T>, share: T)
    requires
        start.len() == end.len(),
        forall|i: int|
            0 <= i < start.len() ==> #[trigger] end[i].sub_spec(start[i]).mul_spec(share)
                == end[i].sub_spec(start[i]),
        forall|i: int|
            0 <= i < start.len() ==> #[trigger] start[i].add_spec(end[i].sub_spec(start[i]))
                == end[i],
    ensures
        zip_add_scaled(start, zip_sub(end, start), share) == end,
{
    assert forall|i: int| 0 <= i < start.len() implies #[trigger] zip_add_scaled(
        start,
        zip_sub(end, start),
        share,
    )[i] == end[i] by {
        assert(end[i].sub_spec(start[i]).mul_spec(share) == end[i].sub_spec(start[i]));
        assert(start[i].add_spec(end[i].sub_spec(start[i])) == end[i]);
    }
    assert(zip_add_scaled(start, zip_sub(end, start), share) =~= end);
}

/// Whether `nets` can be a worker's network before and after each of the
/// `count` passes of a round that starts with pass number `first_batch`.
pub open spec fn round_relates<T, A, M, R, F, G, D>(
    nets: Seq<Net<T, A>>,
    data_set: &PreparedDataSet<T>,
    first_batch: usize,
    count: int,
    zero: T,
    mini_batch_size: M,
    learning_rate: R,
    activation: F,
    derivative: G,
    error_derivative: D,
) -> bool where
    T: Copy + core::ops::Add<Output = T> + core::ops::Sub<Output = T> + core::ops::Mul<
        Output = T,
    > + core::ops::Neg<Output = T>,
    A: Copy,
    M: Fn(usize) -> Option<u32>,
    R: Fn(usize) -> T,
    F: Fn(A, T) -> T,
    G: Fn(A, T) -> T,
    D: Fn(T, T) -> T,
 {
    &&& nets.len() == count + 1
    &&& forall|pass: int|
        0 <= pass < count ==> #[trigger] scheduled_pass_relates(
            &nets[pass],
            &nets[pass + 1],
            data_set,
            (first_batch + pass) as usize,
            zero,
            mini_batch_size,
            learning_rate,
            activation,
            derivative,
            error_derivative,
        )
}

/// A worker's round between two synchronizations: `batches_per_sync`
/// passes over the worker's partition, numbered from `batch_num` on.
pub fn train_round<T, A, M, R, F, G, E, D>(
    context: &mut NetTrainingContext<T>,
    net: &mut Net<T, A>,
    data_set: &PreparedDataSet<T>,
    batch_num: usize,
    batches_per_sync: usize,
    zero: T,
    mini_batch_size: &M,
    learning_rate: &R,
    activation: &F,
    derivative: &G,
    error: &E,
    error_derivative: &D,
) where
    T: Copy + core::ops::Add<Output = T> + core::ops::Sub<Output = T> + core::ops::Mul<
        Output = T,
    > + core::ops::Neg<Output = T>,
    A: Copy,
    M: Fn(usize) -> Option<u32>,
    R: Fn(usize) -> T,
    F: Fn(A, T) -> T,
    G: Fn(A, T) -> T,
    E: Fn(T, T) -> T,
    D: Fn(T, T) -> T,

    requires
        old(net).wf(),
        old(context).fits(old(net)),
        data_set.wf(),
        data_set.spec_num_rows() > 0,
        data_set.spec_independent_cols() == old(net).spec_input_size(),
        data_set.spec_dependent_cols() == old(net).spec_output_size(),
        batch_num + batches_per_sync <= usize::MAX,
        add_is_total::<T>(),
        sub_is_total::<T>(),
        mul_is_total::<T>(),
        neg_is_total::<T>(),
        forall|batch: usize| #[trigger] mini_batch_size.requires((batch,)),
        forall|batch: usize| #[trigger] learning_rate.requires((batch,)),
        accepts_all(*activation),
        accepts_all(*derivative),
        accepts_pairs(*error),
        accepts_pairs(*error_derivative),
    ensures
        final(net).wf(),
        same_shape(old(net), final(net)),
        final(context).fits(final(net)),
        arithmetic_obeys::<T>() ==> exists|nets: Seq<Net<T, A>>|
            {
                &&& #[trigger] round_relates(
                    nets,
                    data_set,
                    batch_num,
                    batches_per_sync as int,
                    zero,
                    *mini_batch_size,
                    *learning_rate,
                    *activation,
                    *derivative,
                    *error_derivative,
                )
                &&& nets[0] == *old(net)
                &&& nets.last() == *final(net)
            },
{
    let ghost mut nets: Seq<Net<T, A>> = seq![*net];
    let mut pass: usize = 0;
    while pass < batches_per_sync
        invariant
            pass <= batches_per_sync,
            batch_num + batches_per_sync <= usize::MAX,
            net.wf(),
            same_shape(old(net), net),
            context.fits(net),
            data_set.wf(),
            data_set.spec_num_rows() > 0,
            data_set.spec_independent_cols() == net.spec_input_size(),
            data_set.spec_dependent_cols() == net.spec_output_size(),
            add_is_total::<T>(),
            sub_is_total::<T>(),
            mul_is_total::<T>(),
            neg_is_total::<T>(),
            forall|batch: usize| #[trigger] mini_batch_size.requires((batch,)),
            forall|batch: usize| #[trigger] learning_rate.requires((batch,)),
            accepts_all(*activation),
            accepts_all(*derivative),
            accepts_pairs(*error),
            accepts_pairs(*error_derivative),
            nets[0] == *old(net),
            nets.last() == *net,
            nets.len() == pass + 1,
            arithmetic_obeys::<T>() ==> round_relates(
                nets,
                data_set,
                batch_num,
                pass as int,
                zero,
                *mini_batch_size,
                *learning_rate,
                *activation,
                *derivative,
                *error_derivative,
            ),
        decreases batches_per_sync - pass,
    {
        let ghost earlier = nets;
        train_scheduled_pass(
            context,
            net,
            data_set,
            batch_num + pass,
            zero,
            mini_batch_size,
            learning_rate,
            activation,
            derivative,
            error,
            error_derivative,
        );
        proof {
            nets = earlier.push(*net);
            if arithmetic_obeys::<T>() {
                assert forall|p: int| 0 <= p < pass + 1 implies #[trigger] scheduled_pass_relates(
                    &nets[p],
                    &nets[p + 1],
                    data_set,
                    (batch_num + p) as usize,
                    zero,
                    *mini_batch_size,
                    *learning_rate,
                    *activation,
                    *derivative,
                    *error_derivative,
                ) by {
                    if p < pass {
                        assert(scheduled_pass_relates(
                            &earlier[p],
                            &earlier[p + 1],
                            data_set,
                            (batch_num + p) as usize,
                            zero,
                            *mini_batch_size,
                            *learning_rate,
                            *activation,
                            *derivative,
                            *error_derivative,
                        ));
                    }
                }
            }
        }
        pass += 1;
    }
}

/// What a worker's round changed: the weights of `net` minus the weights
/// the round started with, written to `weight_diffs`.
pub fn weight_difference<T, A>(
    net: &Net<T, A>,
    start_weights: &RowBuffer<T>,
    weight_diffs: &mut RowBuffer<T>,
) where T: Copy + core::ops::Sub<Output = T>, A: Copy
    requires
        net.spec_weights()@.len() == start_weights@.len(),
        net.spec_weights()@.len() == old(weight_diffs)@.len(),
        sub_is_total::<T>(),
    ensures
        final(weight_diffs).layout() == old(weight_diffs).layout(),
        old(weight_diffs).wf() ==> final(weight_diffs).wf(),
        final(weight_diffs)@.len() == old(weight_diffs)@.len(),
        T::obeys_sub_spec() ==> final(weight_diffs)@ == zip_sub(net.spec_weights()@, start_weights@),
{
    net.get_weights().copy_into(weight_diffs);
    assert forall|i: int| 0 <= i < start_weights@.len() implies #[trigger] weight_diffs@[i].sub_req(
        start_weights@[i],
    ) by {}
    weight_diffs.subtract(start_weights);
}

/// The number of passes done after `sync_count` more rounds of rounds, each
/// of which stands for `batches_per_sync` passes.
pub fn advance_batch_count(batch_num: usize, sync_count: usize, batches_per_sync: usize) -> (next:
    usize)
    requires
        batch_num + sync_count * batches_per_sync <= usize::MAX,
    ensures
        next == batch_num + sync_count * batches_per_sync,
{
    assert(0 <= sync_count * batches_per_sync) by (nonlinear_arith);
    batch_num + sync_count * batches_per_sync
}

/// The coordinator's judgement after it was told of completed rounds: the
/// shared weights are copied to the coordinator's network, the network is
/// judged on every row of the whole data set, and the completion function
/// is asked whether training stops. Returns what was observed and the
/// answer.
pub fn judge_shared_weights<T, A, F, E, D, C, J>(
    shared_weights: &RowBuffer<T>,
    context: &mut NetTrainingContext<T>,
    net: &mut Net<T, A>,
    data_set: &PreparedDataSet<T>,
    batch_num: usize,
    completion_fn: CompletionFn,
    zero: T,
    activation: &F,
    error: &E,
    error_derivative: &D,
    elapsed: &C,
    target_reached: &J,
) -> (judged: (Evaluation<T>, bool)) where
    T: Copy + core::ops::Add<Output = T> + core::ops::Mul<Output = T>,
    A: Copy,
    F: Fn(A, T) -> T,
    E: Fn(T, T) -> T,
    D: Fn(T, T) -> T,
    C: Fn() -> Option<u128>,
    J: Fn(&Vec<T>) -> bool,

    requires
        old(net).wf(),
        old(context).fits(old(net)),
        shared_weights@.len() == old(net).spec_weights()@.len(),
        data_set.wf(),
        data_set.spec_independent_cols() == old(net).spec_input_size(),
        data_set.spec_dependent_cols() == old(net).spec_output_size(),
        add_is_total::<T>(),
        mul_is_total::<T>(),
        accepts_all(*activation),
        accepts_pairs(*error),
        accepts_pairs(*error_derivative),
        elapsed.requires(()),
        forall|errors: &Vec<T>| #[trigger] target_reached.requires((errors,)),
    ensures
        final(net).wf(),
        same_shape(old(net), final(net)),
        final(net).spec_weights()@ == shared_weights@,
        final(context).fits(final(net)),
        T::obeys_add_spec() && T::obeys_mul_spec() ==> errors_relate(
            final(net),
            data_set,
            zero,
            judged.0.errors@,
            *activation,
            *error,
        ),
        elapsed.ensures((), judged.0.elapsed),
        target_reached.ensures((&judged.0.errors,), judged.0.target_reached),
        judged.1 == completion_fn.stops(batch_num, judged.0.elapsed, judged.0.target_reached),
{
    shared_weights.copy_into(net.get_weights_mut());
    let errors = context.compute_error_for_batch(
        net,
        data_set,
        zero,
        activation,
        error,
        error_derivative,
    );
    let time = elapsed();
    let reached = target_reached(&errors);
    let stop = completion_fn.should_stop_training(batch_num, time, reached);
    (Evaluation { errors, elapsed: time, target_reached: reached }, stop)
}

} // verus!
