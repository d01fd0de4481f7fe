//! Training on one thread: pass after pass over the whole data set until
//! the completion function says stop.

use vstd::prelude::*;
use vstd::std_specs::ops::AddSpec;
use vstd::std_specs::ops::MulSpec;
use crate::data::PreparedDataSet;
use crate::func::CompletionFn;
use crate::net::Net;
use crate::scalar::accepts_all;
use crate::scalar::add_is_total;
use crate::scalar::mul_is_total;
use crate::scalar::neg_is_total;
use crate::scalar::sub_is_total;
use crate::train::context::accepts_pairs;
use crate::train::context::arithmetic_obeys;
use crate::train::context::same_shape;
use crate::train::context::NetTrainingContext;

verus! {

/// A mini-batch size as the trainers use it: a positive number of samples,
/// or `None` for the whole data set.
pub open spec fn positive_size(size: Option<u32>) -> Option<u32> {
    match size {
        Some(n) => if n > 0 {
            Some(n)
        } else {
            None
        },
        None => None,
    }
}

/// What was observed after a pass over the data set: the error of every
/// row, the time since training began, and whether the error target was
/// found to be reached.
pub struct Evaluation<T> {
    pub errors: Vec<T>,
    pub elapsed: Option<u128>,
    pub target_reached: bool,
}

/// Whether `errors` can be the errors of `net` on the rows of `data_set`.
pub open spec fn errors_relate<T, A, F, E>(
    net: &Net<T, A>,
    data_set: &PreparedDataSet<T>,
    zero: T,
    errors: Seq<T>,
    activation: F,
    error: E,
) -> bool where
    T: Copy + core::ops::Add<Output = T> + core::ops::Mul<Output = T>,
    A: Copy,
    F: Fn(A, T) -> T,
    E: Fn(T, T) -> T,
 {
    &&& errors.len() == data_set.spec_num_rows()
    &&& forall|row: int|
        0 <= row < data_set.spec_num_rows() ==> NetTrainingContext::<T>::sample_error_relates(
            net,
            data_set.inputs(row),
            data_set.outputs(row),
            zero,
            #[trigger] errors[row],
            activation,
            error,
        )
}

/// Whether `after` can be what pass number `batch` over the data set makes
/// of `before`: the network is trained on every row once, with the
/// learning rate and the mini-batch size that the schedules give for that
/// pass.
pub open spec fn scheduled_pass_relates<T, A, M, R, F, G, D>(
    before: &Net<T, A>,
    after: &Net<T, A>,
    data_set: &PreparedDataSet<T>,
    batch: usize,
    zero: T,
    mini_batch_size: M,
    learning_rate: R,
    activation: F,
    derivative: G,
    error_derivative: D,
) -> bool where
    T: Copy + core::ops::Add<Output = T> + core::ops::Sub<Output = T> + core::ops::Mul<
        Output = T,
    > + core::ops::Neg<Output = T>,
    A: Copy,
    M: Fn(usize) -> Option<u32>,
    R: Fn(usize) -> T,
    F: Fn(A, T) -> T,
    G: Fn(A, T) -> T,
    D: Fn(T, T) -> T,
 {
    &&& before.wf()
    &&& after.wf()
    &&& same_shape(before, after)
    &&& exists|rate: T, size: Option<u32>|
        {
            &&& #[trigger] learning_rate.ensures((batch,), rate)
            &&& #[trigger] mini_batch_size.ensures((batch,), size)
            &&& NetTrainingContext::<T>::pass_relates(
                before,
                after,
                data_set,
                data_set.spec_num_rows(),
                positive_size(size),
                rate,
                zero,
                activation,
                derivative,
                error_derivative,
            )
        }
}

/// Whether `after` and `seen` can be what pass number `batch` over the
/// data set makes of `before`: the network is trained on every row once,
/// with the learning rate and the mini-batch size of that pass, and then
/// judged on every row.
pub open spec fn epoch_relates<T, A, M, R, F, G, E, D, C, J>(
    before: &Net<T, A>,
    after: &Net<T, A>,
    data_set: &PreparedDataSet<T>,
    batch: usize,
    seen: Evaluation<T>,
    zero: T,
    mini_batch_size: M,
    learning_rate: R,
    activation: F,
    derivative: G,
    error: E,
    error_derivative: D,
    elapsed: C,
    target_reached: J,
) -> bool where
    T: Copy + core::ops::Add<Output = T> + core::ops::Sub<Output = T> + core::ops::Mul<
        Output = T,
    > + core::ops::Neg<Output = T>,
    A: Copy,
    M: Fn(usize) -> Option<u32>,
    R: Fn(usize) -> T,
    F: Fn(A, T) -> T,
    G: Fn(A, T) -> T,
    E: Fn(T, T) -> T,
    D: Fn(T, T) -> T,
    C: Fn() -> Option<u128>,
    J: Fn(&Vec<T>) -> bool,
 {
    &&& scheduled_pass_relates(
        before,
        after,
        data_set,
        batch,
        zero,
        mini_batch_size,
        learning_rate,
        activation,
        derivative,
        error_derivative,
    )
    &&& errors_relate(after, data_set, zero, seen.errors@, activation, error)
    &&& elapsed.ensures((), seen.elapsed)
    &&& target_reached.ensures((&seen.errors,), seen.target_reached)
}

/// Whether `nets` and `seen` can be the history of a training run of
/// `batches` passes that ends when the completion function first says stop,
/// or when passes can no longer be counted.
pub open spec fn training_relates<T, A, M, R, F, G, E, D, C, J>(
    nets: Seq<Net<T, A>>,
    seen: Seq<Evaluation<T>>,
    data_set: &PreparedDataSet<T>,
    batches: int,
    completion_fn: CompletionFn,
    zero: T,
    mini_batch_size: M,
    learning_rate: R,
    activation: F,
    derivative: G,
    error: E,
    error_derivative: D,
    elapsed: C,
    target_reached: J,
) -> bool where
    T: Copy + core::ops::Add<Output = T> + core::ops::Sub<Output = T> + core::ops::Mul<
        Output = T,
    > + core::ops::Neg<Output = T>,
    A: Copy,
    M: Fn(usize) -> Option<u32>,
    R: Fn(usize) -> T,
    F: Fn(A, T) -> T,
    G: Fn(A, T) -> T,
    E: Fn(T, T) -> T,
    D: Fn(T, T) -> T,
    C: Fn() -> Option<u128>,
    J: Fn(&Vec<T>) -> bool,
 {
    &&& nets.len() == batches + 1
    &&& seen.len() == batches
    &&& forall|batch: int|
        0 <= batch < batches ==> #[trigger] epoch_relates(
            &nets[batch],
            &nets[batch + 1],
            data_set,
            batch as usize,
            seen[batch],
            zero,
            mini_batch_size,
            learning_rate,
            activation,
            derivative,
            error,
            error_derivative,
            elapsed,
            target_reached,
        )
    &&& forall|batch: int|
        0 <= batch < batches - 1 ==> !completion_fn.stops(
            (batch + 1) as usize,
            (#[trigger] seen[batch]).elapsed,
            seen[batch].target_reached,
        )
}

/// Trains `net` on every row of `data_set` once, as pass number `batch`:
/// with the learning rate and the mini-batch size that the schedules give
/// for that pass.
pub fn train_scheduled_pass<T, A, M, R, F, G, E, D>(
    context: &mut NetTrainingContext<T>,
    net: &mut Net<T, A>,
    data_set: &PreparedDataSet<T>,
    batch: usize,
    zero: T,
    mini_batch_size: &M,
    learning_rate: &R,
    activation: &F,
    derivative: &G,
    error: &E,
    error_derivative: &D,
) where
    T: Copy + core::ops::Add<Output = T> + core::ops::Sub<Output = T> + core::ops::Mul<
        Output = T,
    > + core::ops::Neg<Output = T>,
    A: Copy,
    M: Fn(usize) -> Option<u32>,
    R: Fn(usize) -> T,
    F: Fn(A, T) -> T,
    G: Fn(A, T) -> T,
    E: Fn(T, T) -> T,
    D: Fn(T, T) -> T,

    requires
        old(net).wf(),
        old(context).fits(old(net)),
        data_set.wf(),
        data_set.spec_num_rows() > 0,
        data_set.spec_independent_cols() == old(net).spec_input_size(),
        data_set.spec_dependent_cols() == old(net).spec_output_size(),
        add_is_total::<T>(),
        sub_is_total::<T>(),
        mul_is_total::<T>(),
        neg_is_total::<T>(),
        mini_batch_size.requires((batch,)),
        learning_rate.requires((batch,)),
        accepts_all(*activation),
        accepts_all(*derivative),
        accepts_pairs(*error),
        accepts_pairs(*error_derivative),
    ensures
        final(net).wf(),
        same_shape(old(net), final(net)),
        final(context).fits(final(net)),
        arithmetic_obeys::<T>() ==> scheduled_pass_relates(
            old(net),
            final(net),
            data_set,
            batch,
            zero,
            *mini_batch_size,
            *learning_rate,
            *activation,
            *derivative,
            *error_derivative,
        ),
{
    let rate = learning_rate(batch);
    let asked = mini_batch_size(batch);
    let size = match asked {
        Some(n) => if n > 0 {
            Some(n)
        } else {
            None
        },
        None => None,
    };
    context.train_backprop_single_batch(
        net,
        data_set,
        rate,
        zero,
        activation,
        derivative,
        error,
        error_derivative,
        size,
    );
}

/// Trains `net` on `data_set` on the calling thread. After every pass over
/// the data set the network is judged on every row, and training stops as
/// soon as the completion function says so for the number of passes done,
/// the time that `elapsed` reports and what `target_reached` makes of the
/// errors. Returns the errors of the last judgement and the number of
/// passes.
pub fn train_backprop_single_threaded<T, A, M, R, F, G, E, D, C, J>(
    net: &mut Net<T, A>,
    data_set: &PreparedDataSet<T>,
    completion_fn: CompletionFn,
    zero: T,
    mini_batch_size: &M,
    learning_rate: &R,
    activation: &F,
    derivative: &G,
    error: &E,
    error_derivative: &D,
    elapsed: &C,
    target_reached: &J,
) -> (outcome: (Vec<T>, usize)) where
    T: Copy + core::ops::Add<Output = T> + core::ops::Sub<Output = T> + core::ops::Mul<
        Output = T,
    > + core::ops::Neg<Output = T>,
    A: Copy,
    M: Fn(usize) -> Option<u32>,
    R: Fn(usize) -> T,
    F: Fn(A, T) -> T,
    G: Fn(A, T) -> T,
    E: Fn(T, T) -> T,
    D: Fn(T, T) -> T,
    C: Fn() -> Option<u128>,
    J: Fn(&Vec<T>) -> bool,

    requires
        old(net).wf(),
        data_set.wf(),
        data_set.spec_num_rows() > 0,
        data_set.spec_independent_cols() == old(net).spec_input_size(),
        data_set.spec_dependent_cols() == old(net).spec_output_size(),
        add_is_total::<T>(),
        sub_is_total::<T>(),
        mul_is_total::<T>(),
        neg_is_total::<T>(),
        forall|batch: usize| #[trigger] mini_batch_size.requires((batch,)),
        forall|batch: usize| #[trigger] learning_rate.requires((batch,)),
        accepts_all(*activation),
        accepts_all(*derivative),
        accepts_pairs(*error),
        accepts_pairs(*error_derivative),
        elapsed.requires(()),
        forall|errors: &Vec<T>| #[trigger] target_reached.requires((errors,)),
    ensures
        final(net).wf(),
        same_shape(old(net), final(net)),
        outcome.1 >= 1,
        outcome.0@.len() == data_set.spec_num_rows(),
        arithmetic_obeys::<T>() ==> exists|nets: Seq<Net<T, A>>, seen: Seq<Evaluation<T>>|
            {
                &&& #[trigger] training_relates(
                    nets,
                    seen,
                    data_set,
                    outcome.1 as int,
                    completion_fn,
                    zero,
                    *mini_batch_size,
                    *learning_rate,
                    *activation,
                    *derivative,
                    *error,
                    *error_derivative,
                    *elapsed,
                    *target_reached,
                )
                &&& nets[0] == *old(net)
                &&& nets.last() == *final(net)
                &&& seen.last().errors == outcome.0
                &&& (outcome.1 == usize::MAX || completion_fn.stops(
                    outcome.1,
                    seen.last().elapsed,
                    seen.last().target_reached,
                ))
            },
{
    let mut context = net.get_training_context(zero);
    let mut batch_num: usize = 0;
    let mut errors: Vec<T> = Vec::new();
    let mut done = false;
    let ghost mut nets: Seq<Net<T, A>> = seq![*net];
    let ghost mut seen: Seq<Evaluation<T>> = Seq::empty();
    while !done
        invariant
            net.wf(),
            old(net).wf(),
            same_shape(old(net), net),
            context.fits(net),
            data_set.wf(),
            data_set.spec_num_rows() > 0,
            data_set.spec_independent_cols() == net.spec_input_size(),
            data_set.spec_dependent_cols() == net.spec_output_size(),
            add_is_total::<T>(),
            sub_is_total::<T>(),
            mul_is_total::<T>(),
            neg_is_total::<T>(),
            forall|batch: usize| #[trigger] mini_batch_size.requires((batch,)),
            forall|batch: usize| #[trigger] learning_rate.requires((batch,)),
            accepts_all(*activation),
            accepts_all(*derivative),
            accepts_pairs(*error),
            accepts_pairs(*error_derivative),
            elapsed.requires(()),
            forall|errors: &Vec<T>| #[trigger] target_reached.requires((errors,)),
            !done ==> batch_num < usize::MAX,
            done ==> batch_num >= 1,
            done ==> errors@.len() == data_set.spec_num_rows(),
            nets.len() == batch_num + 1,
            seen.len() == batch_num,
            nets[0] == *old(net),
            nets.last() == *net,
            batch_num >= 1 ==> seen.last().errors == errors,
            !done ==> forall|batch: int|
                0 <= batch < batch_num ==> !completion_fn.stops(
                    (batch + 1) as usize,
                    (#[trigger] seen[batch]).elapsed,
                    seen[batch].target_reached,
                ),
            done ==> (batch_num == usize::MAX || completion_fn.stops(
                batch_num,
                seen.last().elapsed,
                seen.last().target_reached,
            )),
            arithmetic_obeys::<T>() ==> training_relates(
                nets,
                seen,
                data_set,
                batch_num as int,
                completion_fn,
                zero,
                *mini_batch_size,
                *learning_rate,
                *activation,
                *derivative,
                *error,
                *error_derivative,
                *elapsed,
                *target_reached,
            ),
        decreases usize::MAX - batch_num, if done { 0int } else { 1int },
    {
        let ghost before = *net;
        let ghost earlier_nets = nets;
        let ghost earlier_seen = seen;
        train_scheduled_pass(
            &mut context,
            net,
            data_set,
            batch_num,
            zero,
            mini_batch_size,
            learning_rate,
            activation,
            derivative,
            error,
            error_derivative,
        );
        errors = context.compute_error_for_batch(
            net,
            data_set,
            zero,
            activation,
            error,
            error_derivative,
        );
        let time = elapsed();
        let reached = target_reached(&errors);
        let ghost evaluation = Evaluation { errors, elapsed: time, target_reached: reached };
        proof {
            nets = earlier_nets.push(*net);
            seen = earlier_seen.push(evaluation);
            if arithmetic_obeys::<T>() {
                assert(epoch_relates(
                    &before,
                    &*net,
                    data_set,
                    batch_num,
                    evaluation,
                    zero,
                    *mini_batch_size,
                    *learning_rate,
                    *activation,
                    *derivative,
                    *error,
                    *error_derivative,
                    *elapsed,
                    *target_reached,
                ));
                assert forall|batch: int| 0 <= batch < batch_num + 1 implies #[trigger] epoch_relates(
                    &nets[batch],
                    &nets[batch + 1],
                    data_set,
                    batch as usize,
                    seen[batch],
                    zero,
                    *mini_batch_size,
                    *learning_rate,
                    *activation,
                    *derivative,
                    *error,
                    *error_derivative,
                    *elapsed,
                    *target_reached,
                ) by {
                    if batch < batch_num {
                        assert(epoch_relates(
                            &earlier_nets[batch],
                            &earlier_nets[batch + 1],
                            data_set,
                            batch as usize,
                            earlier_seen[batch],
                            zero,
                            *mini_batch_size,
                            *learning_rate,
                            *activation,
                            *derivative,
                            *error,
                            *error_derivative,
                            *elapsed,
                            *target_reached,
                        ));
                    }
                }
            }
            assert forall|batch: int| 0 <= batch < batch_num implies !completion_fn.stops(
                (batch + 1) as usize,
                (#[trigger] seen[batch]).elapsed,
                seen[batch].target_reached,
            ) by {
                assert(seen[batch] == earlier_seen[batch]);
            }
        }
        batch_num += 1;
        let stop = completion_fn.should_stop_training(batch_num, time, reached);
        done = stop || batch_num == usize::MAX;
    }
    (errors, batch_num)
}

} // verus!
