//! The scratch state of one training worker: buffers that are sized once
//! from a network and then reused for every sample.

use vstd::prelude::*;
use vstd::std_specs::ops::AddSpec;
use vstd::std_specs::ops::MulSpec;
use vstd::std_specs::ops::NegSpec;
use vstd::std_specs::ops::SubSpec;
use crate::buffer::row::zip_add;
use crate::buffer::row::RowBuffer;
use crate::data::PreparedDataSet;
use crate::data::PreparedDataSetIterator;
use crate::net::Net;
use crate::scalar::accepts_all;
use crate::scalar::add_is_total;
use crate::scalar::mul_is_total;
use crate::scalar::neg_is_total;
use crate::scalar::sub_is_total;

verus! {

/// The sum of the first `n` terms, added in order onto `zero`.
pub open spec fn sum_of<T: core::ops::Add<Output = T>>(zero: T, terms: Seq<T>, n: int) -> T
    decreases n,
{
    if n <= 0 {
        zero
    } else {
        sum_of(zero, terms, n - 1).add_spec(terms[n - 1])
    }
}

/// A sum only looks at the terms it adds.
pub proof fn lemma_sum_of_prefix<T: core::ops::Add<Output = T>>(
    zero: T,
    a: Seq<T>,
    b: Seq<T>,
    n: int,
)
    requires
        n <= a.len(),
        n <= b.len(),
        forall|k: int| 0 <= k < n ==> a[k] == b[k],
    ensures
        sum_of(zero, a, n) == sum_of(zero, b, n),
    decreases n,
{
    if n > 0 {
        lemma_sum_of_prefix(zero, a, b, n - 1);
    }
}

/// Whether `sum` can be the error of a sample with these expected and
/// actual outputs: the sum, from `zero`, of a result of `error` for every
/// output.
pub open spec fn error_sum_relates<T: core::ops::Add<Output = T>, E: Fn(T, T) -> T>(
    expected: Seq<T>,
    actual: Seq<T>,
    zero: T,
    sum: T,
    error: E,
) -> bool {
    exists|terms: Seq<T>|
        {
            &&& terms.len() == actual.len()
            &&& forall|i: int|
                0 <= i < actual.len() ==> error.ensures((expected[i], actual[i]), #[trigger] terms[i])
            &&& sum == #[trigger] sum_of(zero, terms, actual.len() as int)
        }
}

/// Whether `gradients` can be the error gradients of these outputs: a
/// result of `error_derivative` for every output.
pub open spec fn error_gradients_relate<T, D: Fn(T, T) -> T>(
    expected: Seq<T>,
    actual: Seq<T>,
    gradients: Seq<T>,
    error_derivative: D,
) -> bool {
    &&& gradients.len() == actual.len()
    &&& forall|i: int|
        0 <= i < actual.len() ==> error_derivative.ensures(
            (expected[i], actual[i]),
            #[trigger] gradients[i],
        )
}

/// `f` can be called with every pair of values.
pub open spec fn accepts_pairs<T, E: Fn(T, T) -> T>(f: E) -> bool {
    forall|a: T, b: T| #[trigger] f.requires((a, b))
}

/// The buffers a worker trains a network with: the output of every layer
/// for the current sample, the error gradient at every layer's output, the
/// error gradient at the network's input, and the weight deltas that the
/// samples of the current mini-batch have added up to.
pub struct NetTrainingContext<T> {
    output_buffers: RowBuffer<T>,
    error_gradient_buffers: RowBuffer<T>,
    input_error_buffer: Vec<T>,
    weight_deltas: RowBuffer<T>,
}

impl<T> NetTrainingContext<T> {
    /// The output of every layer, one row per layer.
    pub closed spec fn outputs(&self) -> RowBuffer<T> {
        self.output_buffers
    }

    /// The error gradient at every layer's output, one row per layer.
    pub closed spec fn error_gradients(&self) -> RowBuffer<T> {
        self.error_gradient_buffers
    }

    /// The error gradient at the network's input.
    pub closed spec fn input_errors(&self) -> Seq<T> {
        self.input_error_buffer@
    }

    /// The weight deltas, laid out like the network's weights.
    pub closed spec fn deltas(&self) -> RowBuffer<T> {
        self.weight_deltas
    }

    /// Whether the buffers have the sizes that `net` asks for.
    pub open spec fn fits<A: Copy>(&self, net: &Net<T, A>) -> bool {
        &&& self.outputs().wf()
        &&& self.outputs().row_sizes() == net.config().output_sizes()
        &&& self.error_gradients().wf()
        &&& self.error_gradients().row_sizes() == net.config().output_sizes()
        &&& self.input_errors().len() == net.spec_input_size()
        &&& self.deltas().wf()
        &&& self.deltas().row_sizes() == net.spec_weights().row_sizes()
    }
}

impl<T: Copy> NetTrainingContext<T> {
    /// Buffers for training `net`, every element `zero`.
    pub fn new<A: Copy>(net: &Net<T, A>, zero: T) -> (context: Self)
        requires
            net.wf(),
        ensures
            context.fits(net),
            context.deltas()@ == Seq::new(net.spec_weights()@.len(), |i: int| zero),
            context.outputs()@ == Seq::new(context.outputs()@.len(), |i: int| zero),
            context.error_gradients()@ == Seq::new(context.error_gradients()@.len(), |i: int| zero),
            context.input_errors() == Seq::new(net.spec_input_size() as nat, |i: int| zero),
    {
        let mut layer_sizes: Vec<usize> = Vec::with_capacity(net.num_layers());
        let mut k: usize = 0;
        while k < net.num_layers()
            invariant
                k <= net.spec_layers().len(),
                layer_sizes@.len() == k,
                forall|i: int|
                    0 <= i < k ==> #[trigger] layer_sizes@[i] == net.spec_layers()[i].spec_output_size(),
            decreases net.spec_layers().len() - k,
        {
            layer_sizes.push(net.layer(k).output_size());
            k += 1;
        }
        assert(layer_sizes@ =~= net.config().output_sizes());
        let _total = net.get_weights().buffer_len();
        proof {
            net.config().lemma_outputs_within_weights(net.spec_layers().len() as int);
        }
        let mut input_error_buffer: Vec<T> = Vec::with_capacity(net.input_size());
        let mut k: usize = 0;
        while k < net.input_size()
            invariant
                k <= net.spec_input_size(),
                input_error_buffer@ == Seq::new(k as nat, |i: int| zero),
            decreases net.spec_input_size() - k,
        {
            input_error_buffer.push(zero);
            k += 1;
            assert(input_error_buffer@ =~= Seq::new(k as nat, |i: int| zero));
        }
        NetTrainingContext {
            output_buffers: RowBuffer::new_with_row_sizes(zero, layer_sizes.as_slice()),
            error_gradient_buffers: RowBuffer::new_with_row_sizes(zero, layer_sizes.as_slice()),
            input_error_buffer,
            weight_deltas: net.new_zeroed_weight_buffer(zero),
        }
    }
}

/// What layer `i` reads in a training pass: the sample's inputs for the
/// first layer, the output row of the layer before for every other.
pub open spec fn layer_input<T>(outputs: RowBuffer<T>, inputs: Seq<T>, i: int) -> Seq<T> {
    if i <= 0 {
        inputs
    } else {
        outputs.row(i - 1)
    }
}

impl<T: Copy + core::ops::Add<Output = T> + core::ops::Mul<Output = T>> NetTrainingContext<T> {
    /// Whether the output rows can be what the first `n` layers of `net`
    /// make of `inputs`, each layer reading the row of the layer before.
    pub open spec fn forward_relates<A: Copy, F: Fn(A, T) -> T>(
        net: &Net<T, A>,
        outputs: RowBuffer<T>,
        inputs: Seq<T>,
        n: int,
        activation: F,
    ) -> bool {
        forall|i: int|
            0 <= i < n ==> #[trigger] net.layer_relates(
                i,
                layer_input(outputs, inputs, i),
                outputs.row(i),
                activation,
            )
    }

    /// Runs layer `layer_index` of `net`: it reads the sample's inputs or
    /// the output row of the layer before, and writes its own output row.
    fn forward_layer<A: Copy, F: Fn(A, T) -> T>(
        &mut self,
        net: &Net<T, A>,
        inputs: &[T],
        layer_index: usize,
        activation: &F,
    )
        requires
            net.wf(),
            old(self).fits(net),
            inputs@.len() == net.spec_input_size(),
            layer_index < net.spec_layers().len(),
            add_is_total::<T>(),
            mul_is_total::<T>(),
            accepts_all(*activation),
        ensures
            final(self).fits(net),
            final(self).deltas() == old(self).deltas(),
            final(self).error_gradients() == old(self).error_gradients(),
            final(self).input_errors() == old(self).input_errors(),
            forall|i: int|
                0 <= i < net.spec_layers().len() && i != layer_index
                    ==> #[trigger] final(self).outputs().row(i) == old(self).outputs().row(i),
            T::obeys_add_spec() && T::obeys_mul_spec() ==> net.layer_relates(
                layer_index as int,
                layer_input(old(self).outputs(), inputs@, layer_index as int),
                final(self).outputs().row(layer_index as int),
                *activation,
            ),
    {
        let ghost before = self.output_buffers;
        let ghost mut written: Seq<T> = Seq::empty();
        let ghost mut read: Seq<T> = Seq::empty();
        proof {
            net.lemma_layer_shapes(layer_index as int);
            before.lemma_row_in_bounds(layer_index as int);
        }
        let layer = net.layer(layer_index);
        let weights = net.get_weights().get_row(layer_index);
        if layer_index == 0 {
            let layer_output = self.output_buffers.get_row_mut(0);
            layer.forward_pass(weights, inputs, layer_output, activation);
            proof {
                written = layer_output@;
            }
        } else {
            proof {
                net.lemma_layer_shapes(layer_index - 1);
                before.lemma_row_in_bounds(layer_index - 1);
            }
            let (layer_input, layer_output) = self.output_buffers.split_rows(
                layer_index - 1,
                layer_index,
            );
            layer.forward_pass(weights, layer_input, layer_output, activation);
            proof {
                written = layer_output@;
                read = layer_input@;
            }
        }
        proof {
            if layer_index == 0 {
                before.lemma_with_row(&self.output_buffers, 0, written);
            } else {
                before.lemma_with_rows(
                    &self.output_buffers,
                    layer_index - 1,
                    read,
                    layer_index as int,
                    written,
                );
            }
        }
    }

    /// Runs `net` on one sample and measures the error of its output. The
    /// output of every layer is kept in the output rows; the error gradient
    /// of every output of the network is written to the last row of the
    /// error gradients. Returns the sample's error: the sum over the
    /// outputs of what `error` gives for the expected and the actual value.
    pub fn forward_pass_and_compute_error<A, F, E, D>(
        &mut self,
        net: &Net<T, A>,
        inputs: &[T],
        expected_outputs: &[T],
        zero: T,
        activation: &F,
        error: &E,
        error_derivative: &D,
    ) -> (error_sum: T) where
        A: Copy,
        F: Fn(A, T) -> T,
        E: Fn(T, T) -> T,
        D: Fn(T, T) -> T,

        requires
            net.wf(),
            old(self).fits(net),
            inputs@.len() == net.spec_input_size(),
            expected_outputs@.len() == net.spec_output_size(),
            add_is_total::<T>(),
            mul_is_total::<T>(),
            accepts_all(*activation),
            accepts_pairs(*error),
            accepts_pairs(*error_derivative),
        ensures
            final(self).fits(net),
            final(self).deltas() == old(self).deltas(),
            final(self).input_errors() == old(self).input_errors(),
            forall|i: int|
                0 <= i < net.spec_layers().len() - 1 ==> #[trigger] final(self).error_gradients().row(i) == old(self).error_gradients().row(i),
            T::obeys_add_spec() && T::obeys_mul_spec() ==> Self::forward_relates(
                net,
                final(self).outputs(),
                inputs@,
                net.spec_layers().len() as int,
                *activation,
            ),
            error_gradients_relate(
                expected_outputs@,
                final(self).outputs().row(net.spec_layers().len() - 1),
                final(self).error_gradients().row(net.spec_layers().len() - 1),
                *error_derivative,
            ),
            T::obeys_add_spec() ==> error_sum_relates(
                expected_outputs@,
                final(self).outputs().row(net.spec_layers().len() - 1),
                zero,
                error_sum,
                *error,
            ),
    {
        let ghost obeys = T::obeys_add_spec() && T::obeys_mul_spec();
        let num_layers = net.num_layers();
        let mut layer_index: usize = 0;
        while layer_index < num_layers
            invariant
                layer_index <= num_layers,
                num_layers == net.spec_layers().len(),
                net.wf(),
                self.fits(net),
                self.deltas() == old(self).deltas(),
                self.error_gradients() == old(self).error_gradients(),
                self.input_errors() == old(self).input_errors(),
                inputs@.len() == net.spec_input_size(),
                add_is_total::<T>(),
                mul_is_total::<T>(),
                accepts_all(*activation),
                obeys == (T::obeys_add_spec() && T::obeys_mul_spec()),
                obeys ==> Self::forward_relates(
                    net,
                    self.outputs(),
                    inputs@,
                    layer_index as int,
                    *activation,
                ),
            decreases num_layers - layer_index,
        {
            let ghost earlier = self.output_buffers;
            self.forward_layer(net, inputs, layer_index, activation);
            proof {
                if obeys {
                    assert forall|i: int| 0 <= i < layer_index + 1 implies #[trigger] net.layer_relates(
                        i,
                        layer_input(self.outputs(), inputs@, i),
                        self.outputs().row(i),
                        *activation,
                    ) by {
                        if i < layer_index {
                            assert(net.layer_relates(
                                i,
                                layer_input(earlier, inputs@, i),
                                earlier.row(i),
                                *activation,
                            ));
                            assert(self.outputs().row(i) == earlier.row(i));
                            if i > 0 {
                                assert(self.outputs().row(i - 1) == earlier.row(i - 1));
                            }
                        } else {
                            if i > 0 {
                                assert(self.outputs().row(i - 1) == earlier.row(i - 1));
                            }
                        }
                    }
                }
            }
            layer_index += 1;
        }
        let ghost before = self.error_gradient_buffers;
        let ghost mut terms: Seq<T> = Seq::empty();
        let ghost mut written: Seq<T> = Seq::empty();
        let ghost last = num_layers - 1;
        proof {
            net.lemma_layer_shapes(last);
            self.output_buffers.lemma_row_in_bounds(last);
            before.lemma_row_in_bounds(last);
        }
        let mut error_sum = zero;
        {
            let output = self.output_buffers.get_last_row();
            let gradients = self.error_gradient_buffers.get_last_row_mut();
            let size = net.output_size();
            let mut output_index: usize = 0;
            while output_index < size
                invariant
                    output_index <= size,
                    size == output@.len(),
                    size == expected_outputs@.len(),
                    size == gradients@.len(),
                    add_is_total::<T>(),
                    accepts_pairs(*error),
                    accepts_pairs(*error_derivative),
                    terms.len() == output_index,
                    forall|i: int|
                        0 <= i < output_index ==> error.ensures(
                            (expected_outputs@[i], output@[i]),
                            #[trigger] terms[i],
                        ),
                    T::obeys_add_spec() ==> error_sum == sum_of(zero, terms, output_index as int),
                    forall|i: int|
                        0 <= i < output_index ==> error_derivative.ensures(
                            (expected_outputs@[i], output@[i]),
                            #[trigger] gradients@[i],
                        ),
                decreases size - output_index,
            {
                let expected = expected_outputs[output_index];
                let actual = output[output_index];
                assert(error.requires((expected, actual)));
                let term = error(expected, actual);
                assert(error_sum.add_req(term));
                let ghost earlier = terms;
                proof {
                    terms = terms.push(term);
                    lemma_sum_of_prefix(zero, terms, earlier, output_index as int);
                }
                error_sum = error_sum + term;
                assert(error_derivative.requires((expected, actual)));
                gradients[output_index] = error_derivative(expected, actual);
                output_index += 1;
            }
            proof {
                written = gradients@;
            }
        }
        proof {
            before.lemma_with_row(&self.error_gradient_buffers, last, written);
            if T::obeys_add_spec() {
                assert(error_sum == sum_of(
                    zero,
                    terms,
                    self.outputs().row(last).len() as int,
                ));
            }
        }
        error_sum
    }
}

/// Where layer `i` leaves the error gradients of its inputs: the
/// network's input errors for the first layer, the error gradient row of
/// the layer before for every other.
pub open spec fn layer_input_errors<T>(errors: RowBuffer<T>, input_errors: Seq<T>, i: int) -> Seq<
    T,
> {
    if i <= 0 {
        input_errors
    } else {
        errors.row(i - 1)
    }
}

impl<
    T: Copy + core::ops::Add<Output = T> + core::ops::Sub<Output = T> + core::ops::Mul<
        Output = T,
    > + core::ops::Neg<Output = T>,
> NetTrainingContext<T> {
    /// Whether the buffers can be what the backward pass of layer `i`
    /// leaves: the error gradients of the layer's inputs, and the layer's
    /// row of the weight deltas, given what the row held before.
    pub open spec fn layer_backward_relates<A: Copy, G: Fn(A, T) -> T>(
        net: &Net<T, A>,
        i: int,
        outputs: RowBuffer<T>,
        inputs: Seq<T>,
        errors: RowBuffer<T>,
        input_errors: Seq<T>,
        deltas_before: RowBuffer<T>,
        deltas_after: RowBuffer<T>,
        learning_rate: T,
        zero: T,
        derivative: G,
    ) -> bool {
        net.spec_layers()[i].backprop_relates(
            net.spec_weights().row(i),
            errors.row(i),
            layer_input(outputs, inputs, i),
            outputs.row(i),
            learning_rate,
            zero,
            layer_input_errors(errors, input_errors, i),
            deltas_before.row(i),
            deltas_after.row(i),
            derivative,
        )
    }

    /// Propagates the error gradients at the output of layer `layer_index`
    /// back through that layer.
    fn backward_layer<A: Copy, G: Fn(A, T) -> T>(
        &mut self,
        net: &Net<T, A>,
        inputs: &[T],
        layer_index: usize,
        learning_rate: T,
        zero: T,
        derivative: &G,
    )
        requires
            net.wf(),
            old(self).fits(net),
            inputs@.len() == net.spec_input_size(),
            layer_index < net.spec_layers().len(),
            add_is_total::<T>(),
            sub_is_total::<T>(),
            mul_is_total::<T>(),
            neg_is_total::<T>(),
            accepts_all(*derivative),
        ensures
            final(self).fits(net),
            final(self).outputs() == old(self).outputs(),
            forall|i: int|
                0 <= i < net.spec_layers().len() && i != layer_index ==> #[trigger] final(self).deltas().row(i) == old(self).deltas().row(i),
            forall|i: int|
                0 <= i < net.spec_layers().len() && i != layer_index - 1 ==> #[trigger] final(self).error_gradients().row(i) == old(self).error_gradients().row(i),
            layer_index > 0 ==> final(self).input_errors() == old(self).input_errors(),
            T::obeys_add_spec() && T::obeys_sub_spec() && T::obeys_mul_spec() && T::obeys_neg_spec()
                ==> Self::layer_backward_relates(
                net,
                layer_index as int,
                old(self).outputs(),
                inputs@,
                final(self).error_gradients(),
                final(self).input_errors(),
                old(self).deltas(),
                final(self).deltas(),
                learning_rate,
                zero,
                *derivative,
            ),
    {
        let ghost errors_before = self.error_gradient_buffers;
        let ghost deltas_before = self.weight_deltas;
        let ghost mut new_deltas: Seq<T> = Seq::empty();
        let ghost mut new_errors: Seq<T> = Seq::empty();
        let ghost mut kept_errors: Seq<T> = Seq::empty();
        proof {
            net.lemma_layer_shapes(layer_index as int);
            self.output_buffers.lemma_row_in_bounds(layer_index as int);
            errors_before.lemma_row_in_bounds(layer_index as int);
            deltas_before.lemma_row_in_bounds(layer_index as int);
        }
        let layer = net.layer(layer_index);
        let weights = net.get_weights().get_row(layer_index);
        let outputs = self.output_buffers.get_row(layer_index);
        if layer_index == 0 {
            let output_errors = self.error_gradient_buffers.get_row(0);
            let delta_target = self.weight_deltas.get_row_mut(0);
            let input_errors = self.input_error_buffer.as_mut_slice();
            layer.backprop(
                weights,
                output_errors,
                inputs,
                outputs,
                learning_rate,
                zero,
                input_errors,
                delta_target,
                derivative,
            );
            proof {
                new_deltas = delta_target@;
            }
        } else {
            proof {
                net.lemma_layer_shapes(layer_index - 1);
                self.output_buffers.lemma_row_in_bounds(layer_index - 1);
                errors_before.lemma_row_in_bounds(layer_index - 1);
            }
            let layer_inputs = self.output_buffers.get_row(layer_index - 1);
            let (input_errors, output_errors) = self.error_gradient_buffers.split_rows(
                layer_index - 1,
                layer_index,
            );
            let delta_target = self.weight_deltas.get_row_mut(layer_index);
            layer.backprop(
                weights,
                output_errors,
                layer_inputs,
                outputs,
                learning_rate,
                zero,
                input_errors,
                delta_target,
                derivative,
            );
            proof {
                new_deltas = delta_target@;
                new_errors = input_errors@;
                kept_errors = output_errors@;
            }
        }
        proof {
            deltas_before.lemma_with_row(&self.weight_deltas, layer_index as int, new_deltas);
            if layer_index > 0 {
                errors_before.lemma_with_rows(
                    &self.error_gradient_buffers,
                    layer_index - 1,
                    new_errors,
                    layer_index as int,
                    kept_errors,
                );
            }
        }
    }

    /// Propagates the error gradients of one sample back through all layers
    /// of `net`, from the last to the first. Every layer's weight deltas
    /// for the sample are added to its row of the deltas; the weights are
    /// not changed.
    pub fn backprop<A: Copy, G: Fn(A, T) -> T>(
        &mut self,
        net: &Net<T, A>,
        inputs: &[T],
        learning_rate: T,
        zero: T,
        derivative: &G,
    )
        requires
            net.wf(),
            old(self).fits(net),
            inputs@.len() == net.spec_input_size(),
            add_is_total::<T>(),
            sub_is_total::<T>(),
            mul_is_total::<T>(),
            neg_is_total::<T>(),
            accepts_all(*derivative),
        ensures
            final(self).fits(net),
            final(self).outputs() == old(self).outputs(),
            final(self).error_gradients().row(net.spec_layers().len() - 1) == old(self).error_gradients().row(net.spec_layers().len() - 1),
            T::obeys_add_spec() && T::obeys_sub_spec() && T::obeys_mul_spec() && T::obeys_neg_spec()
                ==> forall|i: int|
                0 <= i < net.spec_layers().len() ==> #[trigger] Self::layer_backward_relates(
                    net,
                    i,
                    final(self).outputs(),
                    inputs@,
                    final(self).error_gradients(),
                    final(self).input_errors(),
                    old(self).deltas(),
                    final(self).deltas(),
                    learning_rate,
                    zero,
                    *derivative,
                ),
    {
        let ghost obeys = T::obeys_add_spec() && T::obeys_sub_spec() && T::obeys_mul_spec()
            && T::obeys_neg_spec();
        let num_layers = net.num_layers();
        let mut layer_index: usize = num_layers;
        while layer_index > 0
            invariant
                layer_index <= num_layers,
                num_layers == net.spec_layers().len(),
                net.wf(),
                self.fits(net),
                self.outputs() == old(self).outputs(),
                inputs@.len() == net.spec_input_size(),
                add_is_total::<T>(),
                sub_is_total::<T>(),
                mul_is_total::<T>(),
                neg_is_total::<T>(),
                accepts_all(*derivative),
                obeys == (T::obeys_add_spec() && T::obeys_sub_spec() && T::obeys_mul_spec()
                    && T::obeys_neg_spec()),
                self.error_gradients().row(num_layers - 1) == old(self).error_gradients().row(
                    num_layers - 1,
                ),
                forall|i: int|
                    0 <= i < layer_index ==> #[trigger] self.deltas().row(i) == old(self).deltas().row(i),
                obeys ==> forall|i: int|
                    layer_index <= i < num_layers ==> #[trigger] Self::layer_backward_relates(
                        net,
                        i,
                        self.outputs(),
                        inputs@,
                        self.error_gradients(),
                        self.input_errors(),
                        old(self).deltas(),
                        self.deltas(),
                        learning_rate,
                        zero,
                        *derivative,
                    ),
            decreases layer_index,
        {
            layer_index -= 1;
            let ghost earlier_errors = self.error_gradient_buffers;
            let ghost earlier_inputs = self.input_error_buffer@;
            let ghost earlier_deltas = self.weight_deltas;
            self.backward_layer(net, inputs, layer_index, learning_rate, zero, derivative);
            proof {
                if obeys {
                    assert forall|i: int|
                        layer_index <= i < num_layers implies #[trigger] Self::layer_backward_relates(
                        net,
                        i,
                        self.outputs(),
                        inputs@,
                        self.error_gradients(),
                        self.input_errors(),
                        old(self).deltas(),
                        self.deltas(),
                        learning_rate,
                        zero,
                        *derivative,
                    ) by {
                        if i > layer_index {
                            assert(Self::layer_backward_relates(
                                net,
                                i,
                                self.outputs(),
                                inputs@,
                                earlier_errors,
                                earlier_inputs,
                                old(self).deltas(),
                                earlier_deltas,
                                learning_rate,
                                zero,
                                *derivative,
                            ));
                            assert(self.error_gradients().row(i) == earlier_errors.row(i));
                            assert(self.error_gradients().row(i - 1) == earlier_errors.row(i - 1));
                            assert(self.deltas().row(i) == earlier_deltas.row(i));
                        } else {
                            assert(earlier_deltas.row(i) == old(self).deltas().row(i));
                        }
                    }
                }
            }
        }
    }
}

/// Whether every operator of the scalar type obeys its specification.
pub open spec fn arithmetic_obeys<
    T: core::ops::Add<Output = T> + core::ops::Sub<Output = T> + core::ops::Mul<
        Output = T,
    > + core::ops::Neg<Output = T>,
>() -> bool {
    T::obeys_add_spec() && T::obeys_sub_spec() && T::obeys_mul_spec() && T::obeys_neg_spec()
}

impl<
    T: Copy + core::ops::Add<Output = T> + core::ops::Sub<Output = T> + core::ops::Mul<
        Output = T,
    > + core::ops::Neg<Output = T>,
> NetTrainingContext<T> {
    /// Whether the buffers can be what training on one sample leaves: the
    /// outputs of a forward pass, the error gradients of the network's
    /// outputs, and what the backward pass makes of them at every layer.
    pub open spec fn sample_relates<A, F, G, D>(
        net: &Net<T, A>,
        inputs: Seq<T>,
        expected: Seq<T>,
        outputs: RowBuffer<T>,
        errors: RowBuffer<T>,
        input_errors: Seq<T>,
        deltas_before: RowBuffer<T>,
        deltas_after: RowBuffer<T>,
        learning_rate: T,
        zero: T,
        activation: F,
        derivative: G,
        error_derivative: D,
    ) -> bool where A: Copy, F: Fn(A, T) -> T, G: Fn(A, T) -> T, D: Fn(T, T) -> T {
        let last = net.spec_layers().len() - 1;
        &&& deltas_after.wf()
        &&& deltas_after.row_sizes() == deltas_before.row_sizes()
        &&& Self::forward_relates(net, outputs, inputs, net.spec_layers().len() as int, activation)
        &&& error_gradients_relate(expected, outputs.row(last), errors.row(last), error_derivative)
        &&& forall|i: int|
            0 <= i < net.spec_layers().len() ==> #[trigger] Self::layer_backward_relates(
                net,
                i,
                outputs,
                inputs,
                errors,
                input_errors,
                deltas_before,
                deltas_after,
                learning_rate,
                zero,
                derivative,
            )
    }

    /// Whether `deltas_after` can be what training on one sample makes of
    /// `deltas_before`.
    pub open spec fn sample_step<A, F, G, D>(
        net: &Net<T, A>,
        inputs: Seq<T>,
        expected: Seq<T>,
        deltas_before: RowBuffer<T>,
        deltas_after: RowBuffer<T>,
        learning_rate: T,
        zero: T,
        activation: F,
        derivative: G,
        error_derivative: D,
    ) -> bool where A: Copy, F: Fn(A, T) -> T, G: Fn(A, T) -> T, D: Fn(T, T) -> T {
        exists|outputs: RowBuffer<T>, errors: RowBuffer<T>, input_errors: Seq<T>|
            #[trigger] Self::sample_relates(
                net,
                inputs,
                expected,
                outputs,
                errors,
                input_errors,
                deltas_before,
                deltas_after,
                learning_rate,
                zero,
                activation,
                derivative,
                error_derivative,
            )
    }

    /// Trains on one sample: a forward pass, the error gradients of the
    /// outputs, and a backward pass that adds the sample's weight deltas to
    /// the deltas of the mini-batch.
    pub fn train_sample<A, F, G, E, D>(
        &mut self,
        net: &Net<T, A>,
        inputs: &[T],
        expected_outputs: &[T],
        learning_rate: T,
        zero: T,
        activation: &F,
        derivative: &G,
        error: &E,
        error_derivative: &D,
    ) where
        A: Copy,
        F: Fn(A, T) -> T,
        G: Fn(A, T) -> T,
        E: Fn(T, T) -> T,
        D: Fn(T, T) -> T,

        requires
            net.wf(),
            old(self).fits(net),
            inputs@.len() == net.spec_input_size(),
            expected_outputs@.len() == net.spec_output_size(),
            add_is_total::<T>(),
            sub_is_total::<T>(),
            mul_is_total::<T>(),
            neg_is_total::<T>(),
            accepts_all(*activation),
            accepts_all(*derivative),
            accepts_pairs(*error),
            accepts_pairs(*error_derivative),
        ensures
            final(self).fits(net),
            arithmetic_obeys::<T>() ==> Self::sample_relates(
                net,
                inputs@,
                expected_outputs@,
                final(self).outputs(),
                final(self).error_gradients(),
                final(self).input_errors(),
                old(self).deltas(),
                final(self).deltas(),
                learning_rate,
                zero,
                *activation,
                *derivative,
                *error_derivative,
            ),
    {
        let _error_sum = self.forward_pass_and_compute_error(
            net,
            inputs,
            expected_outputs,
            zero,
            activation,
            error,
            error_derivative,
        );
        self.backprop(net, inputs, learning_rate, zero, derivative);
    }
}

/// Number of samples in a mini-batch when `rows_left` rows are left: the
/// limit if there is one and it is smaller, all rows left otherwise.
pub open spec fn batch_count(limit: Option<u32>, rows_left: int) -> int {
    match limit {
        Some(n) => if n < rows_left {
            n as int
        } else {
            rows_left
        },
        None => rows_left,
    }
}

/// Whether two networks have the same layers and the same layout of
/// weights.
pub open spec fn same_shape<T, A: Copy>(a: &Net<T, A>, b: &Net<T, A>) -> bool {
    &&& a.spec_layers() == b.spec_layers()
    &&& a.spec_input_size() == b.spec_input_size()
    &&& a.spec_output_size() == b.spec_output_size()
    &&& a.spec_weights().layout() == b.spec_weights().layout()
    &&& a.spec_weights()@.len() == b.spec_weights()@.len()
}

impl<
    T: Copy + core::ops::Add<Output = T> + core::ops::Sub<Output = T> + core::ops::Mul<
        Output = T,
    > + core::ops::Neg<Output = T>,
> NetTrainingContext<T> {
    /// Whether `deltas` can be the weight deltas before and after each of
    /// the `count` samples of a mini-batch that starts at row `first_row`.
    pub open spec fn deltas_relate<A, F, G, D>(
        net: &Net<T, A>,
        data_set: &PreparedDataSet<T>,
        first_row: int,
        count: int,
        deltas: Seq<RowBuffer<T>>,
        learning_rate: T,
        zero: T,
        activation: F,
        derivative: G,
        error_derivative: D,
    ) -> bool where A: Copy, F: Fn(A, T) -> T, G: Fn(A, T) -> T, D: Fn(T, T) -> T {
        &&& deltas.len() == count + 1
        &&& deltas[0].wf()
        &&& deltas[0].row_sizes() == net.spec_weights().row_sizes()
        &&& deltas[0]@ == Seq::new(net.spec_weights()@.len(), |i: int| zero)
        &&& forall|k: int|
            0 <= k < count ==> #[trigger] Self::sample_step(
                net,
                data_set.inputs(first_row + k),
                data_set.outputs(first_row + k),
                deltas[k],
                deltas[k + 1],
                learning_rate,
                zero,
                activation,
                derivative,
                error_derivative,
            )
    }

    /// Whether `weights_after` can be the weights after a mini-batch of
    /// `count` samples from row `first_row` on: the weights of `net` plus
    /// the deltas that the samples add up to, starting from zero. All
    /// samples of the mini-batch see the weights of `net`.
    pub open spec fn mini_batch_step<A, F, G, D>(
        net: &Net<T, A>,
        weights_after: Seq<T>,
        data_set: &PreparedDataSet<T>,
        first_row: int,
        count: int,
        learning_rate: T,
        zero: T,
        activation: F,
        derivative: G,
        error_derivative: D,
    ) -> bool where A: Copy, F: Fn(A, T) -> T, G: Fn(A, T) -> T, D: Fn(T, T) -> T {
        exists|deltas: Seq<RowBuffer<T>>|
            #[trigger] Self::deltas_relate(
                net,
                data_set,
                first_row,
                count,
                deltas,
                learning_rate,
                zero,
                activation,
                derivative,
                error_derivative,
            ) && weights_after == zip_add(net.spec_weights()@, deltas[count]@)
    }

    /// Trains on one mini-batch: sets the deltas to zero, trains on the
    /// next rows of `data_set` until the mini-batch is full or the rows run
    /// out, and then adds the deltas to the weights of `net`. Returns the
    /// number of samples in the mini-batch.
    pub fn train_mini_batch<A, F, G, E, D>(
        &mut self,
        net: &mut Net<T, A>,
        data_set: &PreparedDataSet<T>,
        rows: &mut PreparedDataSetIterator<'_, T>,
        mini_batch_size: Option<u32>,
        learning_rate: T,
        zero: T,
        activation: &F,
        derivative: &G,
        error: &E,
        error_derivative: &D,
    ) -> (count: usize) where
        A: Copy,
        F: Fn(A, T) -> T,
        G: Fn(A, T) -> T,
        E: Fn(T, T) -> T,
        D: Fn(T, T) -> T,

        requires
            old(net).wf(),
            old(self).fits(old(net)),
            data_set.wf(),
            data_set.spec_independent_cols() == old(net).spec_input_size(),
            data_set.spec_dependent_cols() == old(net).spec_output_size(),
            old(rows).wf(),
            old(rows).tracks(data_set),
            add_is_total::<T>(),
            sub_is_total::<T>(),
            mul_is_total::<T>(),
            neg_is_total::<T>(),
            accepts_all(*activation),
            accepts_all(*derivative),
            accepts_pairs(*error),
            accepts_pairs(*error_derivative),
        ensures
            final(net).wf(),
            same_shape(old(net), final(net)),
            final(self).fits(final(net)),
            final(rows).wf(),
            final(rows).tracks(data_set),
            count == batch_count(mini_batch_size, old(rows).rows_left()),
            final(rows).rows_left() == old(rows).rows_left() - count,
            arithmetic_obeys::<T>() ==> Self::mini_batch_step(
                old(net),
                final(net).spec_weights()@,
                data_set,
                data_set.spec_num_rows() - old(rows).rows_left(),
                count as int,
                learning_rate,
                zero,
                *activation,
                *derivative,
                *error_derivative,
            ),
    {
        let ghost first_row = data_set.spec_num_rows() - rows.rows_left();
        let ghost total_left = rows.rows_left();
        let _rows_in_set = data_set.num_rows();
        self.weight_deltas.reset_to(zero);
        let ghost mut deltas: Seq<RowBuffer<T>> = seq![self.weight_deltas];
        let mut count: usize = 0;
        let mut remaining: Option<u32> = mini_batch_size;
        let mut more = rows.has_next() && match remaining {
            Some(n) => n != 0,
            None => true,
        };
        while more
            invariant
                net.wf(),
                *net == *old(net),
                self.fits(net),
                data_set.wf(),
                data_set.spec_independent_cols() == net.spec_input_size(),
                data_set.spec_dependent_cols() == net.spec_output_size(),
                rows.wf(),
                rows.tracks(data_set),
                add_is_total::<T>(),
                sub_is_total::<T>(),
                mul_is_total::<T>(),
                neg_is_total::<T>(),
                accepts_all(*activation),
                accepts_all(*derivative),
                accepts_pairs(*error),
                accepts_pairs(*error_derivative),
                first_row == data_set.spec_num_rows() - total_left,
                0 <= first_row,
                total_left <= usize::MAX,
                rows.rows_left() == total_left - count,
                remaining == match mini_batch_size {
                    Some(n) => Some((n - count) as u32),
                    None => None,
                },
                mini_batch_size matches Some(n) ==> count <= n,
                more == (rows.spec_has_next() && remaining != Some(0u32)),
                deltas.len() == count + 1,
                deltas[count as int] == self.deltas(),
                arithmetic_obeys::<T>() ==> Self::deltas_relate(
                    net,
                    data_set,
                    first_row,
                    count as int,
                    deltas,
                    learning_rate,
                    zero,
                    *activation,
                    *derivative,
                    *error_derivative,
                ),
            decreases rows.rows_left(),
        {
            proof {
                data_set.lemma_row_in_bounds(first_row + count);
            }
            let (inputs, expected_outputs) = rows.next_unchecked();
            let ghost earlier = deltas;
            self.train_sample(
                net,
                inputs,
                expected_outputs,
                learning_rate,
                zero,
                activation,
                derivative,
                error,
                error_derivative,
            );
            proof {
                deltas = earlier.push(self.weight_deltas);
                if arithmetic_obeys::<T>() {
                    assert(Self::sample_step(
                        net,
                        data_set.inputs(first_row + count),
                        data_set.outputs(first_row + count),
                        deltas[count as int],
                        deltas[count + 1],
                        learning_rate,
                        zero,
                        *activation,
                        *derivative,
                        *error_derivative,
                    ));
                    assert forall|k: int| 0 <= k < count + 1 implies #[trigger] Self::sample_step(
                        net,
                        data_set.inputs(first_row + k),
                        data_set.outputs(first_row + k),
                        deltas[k],
                        deltas[k + 1],
                        learning_rate,
                        zero,
                        *activation,
                        *derivative,
                        *error_derivative,
                    ) by {
                        if k < count {
                            assert(Self::sample_step(
                                net,
                                data_set.inputs(first_row + k),
                                data_set.outputs(first_row + k),
                                earlier[k],
                                earlier[k + 1],
                                learning_rate,
                                zero,
                                *activation,
                                *derivative,
                                *error_derivative,
                            ));
                        }
                    }
                }
                assert((first_row + count + 1) * data_set.spec_num_cols() == (first_row + count)
                    * data_set.spec_num_cols() + data_set.spec_num_cols()) by (nonlinear_arith);
            }
            count += 1;
            if let Some(n) = remaining {
                remaining = Some(n - 1);
            }
            more = rows.has_next() && match remaining {
                Some(n) => n != 0,
                None => true,
            };
        }
        let ghost deltas_end = self.weight_deltas;
        let weights = net.get_weights_mut();
        assert forall|i: int| 0 <= i < self.weight_deltas@.len() implies #[trigger] weights@[i].add_req(
            self.weight_deltas@[i],
        ) by {}
        weights.add(&self.weight_deltas);
        proof {
            if arithmetic_obeys::<T>() {
                assert(Self::deltas_relate(
                    old(net),
                    data_set,
                    first_row,
                    count as int,
                    deltas,
                    learning_rate,
                    zero,
                    *activation,
                    *derivative,
                    *error_derivative,
                ));
            }
        }
        count
    }
}

impl<
    T: Copy + core::ops::Add<Output = T> + core::ops::Sub<Output = T> + core::ops::Mul<
        Output = T,
    > + core::ops::Neg<Output = T>,
> NetTrainingContext<T> {
    /// Whether `now` can be the network after training `start` on the
    /// first `rows_done` rows of `data_set`, one mini-batch after the
    /// other: each mini-batch trains the network that the one before it
    /// left.
    pub open spec fn pass_relates<A, F, G, D>(
        start: &Net<T, A>,
        now: &Net<T, A>,
        data_set: &PreparedDataSet<T>,
        rows_done: int,
        mini_batch_size: Option<u32>,
        learning_rate: T,
        zero: T,
        activation: F,
        derivative: G,
        error_derivative: D,
    ) -> bool where A: Copy, F: Fn(A, T) -> T, G: Fn(A, T) -> T, D: Fn(T, T) -> T
        decreases rows_done,
    {
        if rows_done <= 0 {
            now.spec_weights()@ == start.spec_weights()@
        } else {
            exists|before: Net<T, A>, first_row: int|
                {
                    &&& 0 <= first_row < rows_done
                    &&& rows_done - first_row == batch_count(
                        mini_batch_size,
                        data_set.spec_num_rows() - first_row,
                    )
                    &&& before.wf()
                    &&& same_shape(start, &before)
                    &&& Self::pass_relates(
                        start,
                        &before,
                        data_set,
                        first_row,
                        mini_batch_size,
                        learning_rate,
                        zero,
                        activation,
                        derivative,
                        error_derivative,
                    )
                    &&& #[trigger] Self::mini_batch_step(
                        &before,
                        now.spec_weights()@,
                        data_set,
                        first_row,
                        rows_done - first_row,
                        learning_rate,
                        zero,
                        activation,
                        derivative,
                        error_derivative,
                    )
                }
        }
    }

    /// Trains `net` on every row of `data_set` once, in mini-batches of
    /// `mini_batch_size` samples (the last one may be smaller), or in one
    /// mini-batch when no size is given. The weights used for the samples
    /// of a mini-batch are those the mini-batch started with; the deltas
    /// are added to the weights when the mini-batch is complete.
    pub fn train_backprop_single_batch<A, F, G, E, D>(
        &mut self,
        net: &mut Net<T, A>,
        data_set: &PreparedDataSet<T>,
        learning_rate: T,
        zero: T,
        activation: &F,
        derivative: &G,
        error: &E,
        error_derivative: &D,
        mini_batch_size: Option<u32>,
    ) where
        A: Copy,
        F: Fn(A, T) -> T,
        G: Fn(A, T) -> T,
        E: Fn(T, T) -> T,
        D: Fn(T, T) -> T,

        requires
            old(net).wf(),
            old(self).fits(old(net)),
            data_set.wf(),
            data_set.spec_num_rows() > 0,
            data_set.spec_independent_cols() == old(net).spec_input_size(),
            data_set.spec_dependent_cols() == old(net).spec_output_size(),
            mini_batch_size matches Some(n) ==> n > 0,
            add_is_total::<T>(),
            sub_is_total::<T>(),
            mul_is_total::<T>(),
            neg_is_total::<T>(),
            accepts_all(*activation),
            accepts_all(*derivative),
            accepts_pairs(*error),
            accepts_pairs(*error_derivative),
        ensures
            final(net).wf(),
            same_shape(old(net), final(net)),
            final(self).fits(final(net)),
            arithmetic_obeys::<T>() ==> Self::pass_relates(
                old(net),
                final(net),
                data_set,
                data_set.spec_num_rows(),
                mini_batch_size,
                learning_rate,
                zero,
                *activation,
                *derivative,
                *error_derivative,
            ),
    {
        let mut rows = data_set.iter();
        let ghost total = data_set.spec_num_rows();
        proof {
            net.lemma_layer_shapes(0);
        }
        let mut more = rows.has_next();
        while more
            invariant
                net.wf(),
                old(net).wf(),
                same_shape(old(net), net),
                self.fits(net),
                data_set.wf(),
                total == data_set.spec_num_rows(),
                data_set.spec_independent_cols() == net.spec_input_size(),
                data_set.spec_dependent_cols() == net.spec_output_size(),
                mini_batch_size matches Some(n) ==> n > 0,
                rows.wf(),
                rows.tracks(data_set),
                more == rows.spec_has_next(),
                add_is_total::<T>(),
                sub_is_total::<T>(),
                mul_is_total::<T>(),
                neg_is_total::<T>(),
                accepts_all(*activation),
                accepts_all(*derivative),
                accepts_pairs(*error),
                accepts_pairs(*error_derivative),
                arithmetic_obeys::<T>() ==> Self::pass_relates(
                    old(net),
                    net,
                    data_set,
                    total - rows.rows_left(),
                    mini_batch_size,
                    learning_rate,
                    zero,
                    *activation,
                    *derivative,
                    *error_derivative,
                ),
            decreases rows.rows_left(),
        {
            let ghost before = *net;
            let ghost first_row = total - rows.rows_left();
            let count = self.train_mini_batch(
                net,
                data_set,
                &mut rows,
                mini_batch_size,
                learning_rate,
                zero,
                activation,
                derivative,
                error,
                error_derivative,
            );
            proof {
                let rows_done = total - rows.rows_left();
                if arithmetic_obeys::<T>() {
                    assert(0 <= first_row < rows_done);
                    assert(rows_done - first_row == batch_count(
                        mini_batch_size,
                        data_set.spec_num_rows() - first_row,
                    ));
                    assert(before.wf());
                    assert(same_shape(old(net), &before));
                    assert(Self::pass_relates(
                        old(net),
                        &before,
                        data_set,
                        first_row,
                        mini_batch_size,
                        learning_rate,
                        zero,
                        *activation,
                        *derivative,
                        *error_derivative,
                    ));
                    assert(Self::mini_batch_step(
                        &before,
                        net.spec_weights()@,
                        data_set,
                        first_row,
                        rows_done - first_row,
                        learning_rate,
                        zero,
                        *activation,
                        *derivative,
                        *error_derivative,
                    ));
                    assert(Self::pass_relates(
                        old(net),
                        net,
                        data_set,
                        rows_done,
                        mini_batch_size,
                        learning_rate,
                        zero,
                        *activation,
                        *derivative,
                        *error_derivative,
                    ));
                }
            }
            more = rows.has_next();
        }
    }
}

impl<T: Copy + core::ops::Add<Output = T> + core::ops::Mul<Output = T>> NetTrainingContext<T> {
    /// Whether `sum` can be the error of `net` on a sample: the error sum
    /// of a prediction for the sample's inputs against the expected
    /// outputs.
    pub open spec fn sample_error_relates<A, F, E>(
        net: &Net<T, A>,
        inputs: Seq<T>,
        expected: Seq<T>,
        zero: T,
        sum: T,
        activation: F,
        error: E,
    ) -> bool where A: Copy, F: Fn(A, T) -> T, E: Fn(T, T) -> T {
        exists|output: Seq<T>|
            #[trigger] net.predicts(inputs, output, activation) && error_sum_relates(
                expected,
                output,
                zero,
                sum,
                error,
            )
    }

    /// The output rows of a forward pass hold a prediction of the network
    /// in their last row.
    pub proof fn lemma_forward_predicts<A: Copy, F: Fn(A, T) -> T>(
        net: &Net<T, A>,
        outputs: RowBuffer<T>,
        inputs: Seq<T>,
        activation: F,
    )
        requires
            net.spec_layers().len() >= 1,
            Self::forward_relates(net, outputs, inputs, net.spec_layers().len() as int, activation),
        ensures
            net.predicts(inputs, outputs.row(net.spec_layers().len() - 1), activation),
    {
        let hidden = Seq::new(
            (net.spec_layers().len() + 1) as nat,
            |i: int| layer_input(outputs, inputs, i),
        );
        assert forall|i: int| 0 <= i < net.spec_layers().len() implies #[trigger] net.layer_relates(
            i,
            hidden[i],
            hidden[i + 1],
            activation,
        ) by {
            assert(net.layer_relates(
                i,
                layer_input(outputs, inputs, i),
                outputs.row(i),
                activation,
            ));
        }
        assert(net.chain_relates(hidden, activation));
        assert(hidden[0] == inputs);
        assert(hidden.last() == outputs.row(net.spec_layers().len() - 1));
    }

    /// Measures the error of `net` on every row of `data_set`. Returns one
    /// error per row, in row order.
    pub fn compute_error_for_batch<A, F, E, D>(
        &mut self,
        net: &Net<T, A>,
        data_set: &PreparedDataSet<T>,
        zero: T,
        activation: &F,
        error: &E,
        error_derivative: &D,
    ) -> (errors: Vec<T>) where
        A: Copy,
        F: Fn(A, T) -> T,
        E: Fn(T, T) -> T,
        D: Fn(T, T) -> T,

        requires
            net.wf(),
            old(self).fits(net),
            data_set.wf(),
            data_set.spec_independent_cols() == net.spec_input_size(),
            data_set.spec_dependent_cols() == net.spec_output_size(),
            add_is_total::<T>(),
            mul_is_total::<T>(),
            accepts_all(*activation),
            accepts_pairs(*error),
            accepts_pairs(*error_derivative),
        ensures
            final(self).fits(net),
            final(self).deltas() == old(self).deltas(),
            errors@.len() == data_set.spec_num_rows(),
            T::obeys_add_spec() && T::obeys_mul_spec() ==> forall|row: int|
                0 <= row < data_set.spec_num_rows() ==> Self::sample_error_relates(
                    net,
                    data_set.inputs(row),
                    data_set.outputs(row),
                    zero,
                    #[trigger] errors@[row],
                    *activation,
                    *error,
                ),
    {
        let ghost obeys = T::obeys_add_spec() && T::obeys_mul_spec();
        let ghost total = data_set.spec_num_rows();
        let mut errors: Vec<T> = Vec::new();
        let mut rows = data_set.iter();
        proof {
            net.lemma_layer_shapes(0);
        }
        let mut more = rows.has_next();
        while more
            invariant
                net.wf(),
                self.fits(net),
                self.deltas() == old(self).deltas(),
                data_set.wf(),
                total == data_set.spec_num_rows(),
                data_set.spec_independent_cols() == net.spec_input_size(),
                data_set.spec_dependent_cols() == net.spec_output_size(),
                rows.wf(),
                rows.tracks(data_set),
                more == rows.spec_has_next(),
                add_is_total::<T>(),
                mul_is_total::<T>(),
                accepts_all(*activation),
                accepts_pairs(*error),
                accepts_pairs(*error_derivative),
                obeys == (T::obeys_add_spec() && T::obeys_mul_spec()),
                errors@.len() == total - rows.rows_left(),
                obeys ==> forall|row: int|
                    0 <= row < errors@.len() ==> Self::sample_error_relates(
                        net,
                        data_set.inputs(row),
                        data_set.outputs(row),
                        zero,
                        #[trigger] errors@[row],
                        *activation,
                        *error,
                    ),
            decreases rows.rows_left(),
        {
            let ghost row = total - rows.rows_left();
            proof {
                data_set.lemma_row_in_bounds(row);
                assert((row + 1) * data_set.spec_num_cols() == row * data_set.spec_num_cols()
                    + data_set.spec_num_cols()) by (nonlinear_arith);
            }
            let (inputs, expected_outputs) = rows.next_unchecked();
            let error_sum = self.forward_pass_and_compute_error(
                net,
                inputs,
                expected_outputs,
                zero,
                activation,
                error,
                error_derivative,
            );
            proof {
                if obeys {
                    Self::lemma_forward_predicts(net, self.outputs(), inputs@, *activation);
                    assert(Self::sample_error_relates(
                        net,
                        data_set.inputs(row),
                        data_set.outputs(row),
                        zero,
                        error_sum,
                        *activation,
                        *error,
                    ));
                }
            }
            errors.push(error_sum);
            more = rows.has_next();
        }
        errors
    }
}

} // verus!
