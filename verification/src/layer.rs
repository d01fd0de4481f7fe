//! Network layers: their shape, and the forward and backward kernels.
//!
//! A layer holds no weights of its own. Its weights live in one row of the
//! network's arena and are handed to the kernels as a slice: the connection
//! weights first, `input_index * output_size + node_index` for the weight
//! from input `input_index` to node `node_index`, then one bias per node.

use vstd::prelude::*;
use vstd::std_specs::ops::AddSpec;
use vstd::std_specs::ops::MulSpec;
use vstd::std_specs::ops::NegSpec;
use vstd::std_specs::ops::SubSpec;
use crate::scalar::accepts_all;
use crate::scalar::add_is_total;
use crate::scalar::mul_is_total;
use crate::scalar::neg_is_total;
use crate::scalar::sub_is_total;
use crate::utils::split_slice;
use crate::utils::split_slice_mut;

verus! {

/// What is needed to make a layer, short of the size of its input. `A`
/// describes the activation function.
#[derive(Clone, Copy, Debug, PartialEq)]
pub enum NetLayerConfig<A> {
    /// A fully connected layer with this many nodes.
    FullyConnected(usize, A),
}

/// Number of weights and biases of a fully connected layer.
pub open spec fn fully_connected_weights(input_size: int, size: int) -> int {
    input_size * size + size
}

/// Position of the weight from input `input_index` to node `node_index`.
pub open spec fn weight_index(size: int, input_index: int, node_index: int) -> int {
    input_index * size + node_index
}

/// Positions of connection weights stay below the number of connections,
/// and different connections have different positions.
pub proof fn lemma_weight_index(input_size: int, size: int, input_index: int, node_index: int)
    requires
        0 <= input_index < input_size,
        0 <= node_index < size,
    ensures
        0 <= weight_index(size, input_index, node_index) < input_size * size,
        forall|other_input: int, other_node: int|
            0 <= other_input && 0 <= other_node < size && #[trigger] weight_index(
                size,
                other_input,
                other_node,
            ) == weight_index(size, input_index, node_index) ==> other_input == input_index
                && other_node == node_index,
{
    assert(input_index * size + node_index < input_size * size) by (nonlinear_arith)
        requires
            0 <= input_index < input_size,
            0 <= node_index < size,
    ;
    assert(0 <= input_index * size) by (nonlinear_arith)
        requires
            0 <= input_index,
            0 < size,
    ;
    assert forall|other_input: int, other_node: int|
        0 <= other_input && 0 <= other_node < size && #[trigger] weight_index(
            size,
            other_input,
            other_node,
        ) == weight_index(size, input_index, node_index) implies other_input == input_index
        && other_node == node_index by {
        assert(other_input == input_index) by (nonlinear_arith)
            requires
                0 <= other_input,
                0 <= input_index,
                0 <= other_node < size,
                0 <= node_index < size,
                other_input * size + other_node == input_index * size + node_index,
        ;
    }
}

/// All connection weights of a layer lie below its biases, at positions of
/// their own.
pub proof fn lemma_weight_indices(input_size: int, size: int)
    ensures
        forall|input_index: int, node_index: int|
            0 <= input_index < input_size && 0 <= node_index < size ==> 0 <= #[trigger] weight_index(
                size,
                input_index,
                node_index,
            ) < input_size * size,
        forall|first_input: int, first_node: int, second_input: int, second_node: int|
            0 <= first_input && 0 <= first_node < size && 0 <= second_input && 0 <= second_node
                < size && #[trigger] weight_index(size, first_input, first_node)
                == #[trigger] weight_index(size, second_input, second_node) ==> first_input
                == second_input && first_node == second_node,
{
    assert forall|input_index: int, node_index: int|
        0 <= input_index < input_size && 0 <= node_index < size implies 0 <= #[trigger] weight_index(
        size,
        input_index,
        node_index,
    ) < input_size * size by {
        lemma_weight_index(input_size, size, input_index, node_index);
    }
    assert forall|first_input: int, first_node: int, second_input: int, second_node: int|
        0 <= first_input && 0 <= first_node < size && 0 <= second_input && 0 <= second_node < size
            && #[trigger] weight_index(size, first_input, first_node) == #[trigger] weight_index(
            size,
            second_input,
            second_node,
        ) implies first_input == second_input && first_node == second_node by {
        lemma_weight_index(first_input + 1, size, first_input, first_node);
    }
}

/// The weighted input of node `node` after the first `n` inputs: the node's
/// bias, plus input times weight for each of those inputs, added in order.
pub open spec fn weighted_sum<T: core::ops::Add<Output = T> + core::ops::Mul<Output = T>>(
    weights: Seq<T>,
    input: Seq<T>,
    size: int,
    node: int,
    n: int,
) -> T
    decreases n,
{
    if n <= 0 {
        weights[input.len() * size + node]
    } else {
        weighted_sum(weights, input, size, node, n - 1).add_spec(
            input[n - 1].mul_spec(weights[weight_index(size, n - 1, node)]),
        )
    }
}

/// Position of the bias of node `node_index`.
pub open spec fn bias_index(input_size: int, size: int, node_index: int) -> int {
    input_size * size + node_index
}

/// The error gradient that reaches input `input_index` from the first `n`
/// nodes: starting from `zero`, weight times node gradient for each of those
/// nodes, added in order.
pub open spec fn input_error<T: core::ops::Add<Output = T> + core::ops::Mul<Output = T>>(
    weights: Seq<T>,
    gradients: Seq<T>,
    zero: T,
    size: int,
    input_index: int,
    n: int,
) -> T
    decreases n,
{
    if n <= 0 {
        zero
    } else {
        input_error(weights, gradients, zero, size, input_index, n - 1).add_spec(
            weights[weight_index(size, input_index, n - 1)].mul_spec(gradients[n - 1]),
        )
    }
}

/// The error gradient of an input depends only on the gradients of the
/// nodes it was summed over.
pub proof fn lemma_input_error_prefix<
    T: core::ops::Add<Output = T> + core::ops::Mul<Output = T>,
>(weights: Seq<T>, a: Seq<T>, b: Seq<T>, zero: T, size: int, input_index: int, n: int)
    requires
        n <= a.len(),
        n <= b.len(),
        forall|k: int| 0 <= k < n ==> a[k] == b[k],
    ensures
        input_error(weights, a, zero, size, input_index, n) == input_error(
            weights,
            b,
            zero,
            size,
            input_index,
            n,
        ),
    decreases n,
{
    if n > 0 {
        lemma_input_error_prefix(weights, a, b, zero, size, input_index, n - 1);
    }
}

/// What one sample adds to the delta of a connection weight: the negated
/// learning rate times the node's gradient times the input's value.
pub open spec fn weight_step<T: core::ops::Mul<Output = T> + core::ops::Neg<Output = T>>(
    learning_rate: T,
    gradient: T,
    input: T,
) -> T {
    learning_rate.neg_spec().mul_spec(gradient).mul_spec(input)
}

/// What one sample takes from the delta of a bias: the learning rate times
/// the node's gradient.
pub open spec fn bias_step<T: core::ops::Mul<Output = T>>(learning_rate: T, gradient: T) -> T {
    learning_rate.mul_spec(gradient)
}

/// A layer in which every node is connected to every input.
#[derive(Copy, Debug)]
pub struct FullyConnectedNetLayer<A> {
    input_size: usize,
    size: usize,
    num_weights: usize,
    activation_fn: A,
}

impl<A> FullyConnectedNetLayer<A> {
    #[verifier::type_invariant]
    spec fn sized(&self) -> bool {
        &&& self.num_weights == self.input_size * self.size
        &&& self.num_weights + self.size <= usize::MAX
    }
}

impl<A: Copy> Clone for FullyConnectedNetLayer<A> {
    fn clone(&self) -> (copy: Self)
        ensures
            copy == *self,
    {
        *self
    }
}

impl<A: Copy> FullyConnectedNetLayer<A> {
    /// Number of inputs.
    pub closed spec fn spec_input_size(&self) -> usize {
        self.input_size
    }

    /// Number of nodes, which is the number of outputs.
    pub closed spec fn spec_output_size(&self) -> usize {
        self.size
    }

    /// The activation function's description.
    pub closed spec fn spec_activation(&self) -> A {
        self.activation_fn
    }

    /// Length of the layer's weight row.
    pub open spec fn spec_weight_buffer_size(&self) -> int {
        fully_connected_weights(self.spec_input_size() as int, self.spec_output_size() as int)
    }

    /// What a forward pass guarantees of `output`: every node's value is a
    /// result of the activation function on the node's weighted input.
    pub open spec fn forward_relates<T, F>(
        &self,
        weights: Seq<T>,
        input: Seq<T>,
        output: Seq<T>,
        activation: F,
    ) -> bool where
        T: core::ops::Add<Output = T> + core::ops::Mul<Output = T>,
        F: Fn(A, T) -> T,
     {
        &&& output.len() == self.spec_output_size()
        &&& forall|node: int|
            0 <= node < self.spec_output_size() ==> activation.ensures(
                (
                    self.spec_activation(),
                    weighted_sum(
                        weights,
                        input,
                        self.spec_output_size() as int,
                        node,
                        self.spec_input_size() as int,
                    ),
                ),
                #[trigger] output[node],
            )
    }

    /// A layer of `size` nodes over `input_size` inputs.
    pub fn new(input_size: usize, size: usize, activation_fn: A) -> (layer: Self)
        requires
            fully_connected_weights(input_size as int, size as int) <= usize::MAX,
        ensures
            layer.spec_input_size() == input_size,
            layer.spec_output_size() == size,
            layer.spec_activation() == activation_fn,
    {
        assert(0 <= input_size * size) by (nonlinear_arith);
        FullyConnectedNetLayer { input_size, size, num_weights: size * input_size, activation_fn }
    }

    /// Number of inputs.
    #[verifier::when_used_as_spec(spec_input_size)]
    pub fn input_size(&self) -> (n: usize)
        ensures
            n == self.spec_input_size(),
    {
        self.input_size
    }

    /// Number of outputs.
    #[verifier::when_used_as_spec(spec_output_size)]
    pub fn output_size(&self) -> (n: usize)
        ensures
            n == self.spec_output_size(),
    {
        self.size
    }

    /// Length of the layer's weight row: one weight per connection and one
    /// bias per node.
    pub fn weight_buffer_size(&self) -> (n: usize)
        ensures
            n == self.spec_weight_buffer_size(),
    {
        proof {
            use_type_invariant(self);
        }
        self.num_weights + self.size
    }

    /// The activation function's description.
    #[verifier::when_used_as_spec(spec_activation)]
    pub fn activation(&self) -> (activation_fn: A)
        ensures
            activation_fn == self.spec_activation(),
    {
        self.activation_fn
    }

    /// The configuration this layer was made from.
    pub fn get_config(&self) -> (config: NetLayerConfig<A>)
        ensures
            config == NetLayerConfig::FullyConnected(self.spec_output_size(), self.spec_activation()),
    {
        NetLayerConfig::FullyConnected(self.size, self.activation_fn)
    }

    /// Computes the layer's output for `input`: for every node the bias plus
    /// the weighted inputs, passed through `activation` together with the
    /// layer's activation description.
    pub fn forward_pass<T, F>(
        &self,
        weight_buffer: &[T],
        input: &[T],
        output: &mut [T],
        activation: &F,
    ) where T: Copy + core::ops::Add<Output = T> + core::ops::Mul<Output = T>, F: Fn(A, T) -> T
        requires
            weight_buffer@.len() == self.spec_weight_buffer_size(),
            input@.len() == self.spec_input_size(),
            old(output)@.len() == self.spec_output_size(),
            add_is_total::<T>(),
            mul_is_total::<T>(),
            accepts_all(*activation),
        ensures
            final(output)@.len() == old(output)@.len(),
            T::obeys_add_spec() && T::obeys_mul_spec() ==> self.forward_relates(
                weight_buffer@,
                input@,
                final(output)@,
                *activation,
            ),
    {
        proof {
            use_type_invariant(self);
        }
        let (weights, biases) = split_slice(weight_buffer, self.num_weights, self.size);
        let ghost obeys = T::obeys_add_spec() && T::obeys_mul_spec();
        let mut node_index: usize = 0;
        while node_index < self.size
            invariant
                node_index <= self.size,
                self.sized(),
                weight_buffer@.len() == self.num_weights + self.size,
                weights@ == weight_buffer@.subrange(0, self.num_weights as int),
                biases@ == weight_buffer@.subrange(
                    self.num_weights as int,
                    self.num_weights + self.size,
                ),
                input@.len() == self.input_size,
                output@.len() == self.size,
                add_is_total::<T>(),
                mul_is_total::<T>(),
                accepts_all(*activation),
                obeys == (T::obeys_add_spec() && T::obeys_mul_spec()),
                obeys ==> forall|node: int|
                    0 <= node < node_index ==> activation.ensures(
                        (
                            self.spec_activation(),
                            weighted_sum(
                                weight_buffer@,
                                input@,
                                self.size as int,
                                node,
                                self.input_size as int,
                            ),
                        ),
                        #[trigger] output@[node],
                    ),
            decreases self.size - node_index,
        {
            let mut sum = biases[node_index];
            let mut input_index: usize = 0;
            while input_index < self.input_size
                invariant
                    input_index <= self.input_size,
                    node_index < self.size,
                    self.sized(),
                    weight_buffer@.len() == self.num_weights + self.size,
                    weights@ == weight_buffer@.subrange(0, self.num_weights as int),
                    input@.len() == self.input_size,
                    add_is_total::<T>(),
                    mul_is_total::<T>(),
                    obeys == (T::obeys_add_spec() && T::obeys_mul_spec()),
                    obeys ==> sum == weighted_sum(
                        weight_buffer@,
                        input@,
                        self.size as int,
                        node_index as int,
                        input_index as int,
                    ),
                decreases self.input_size - input_index,
            {
                proof {
                    lemma_weight_index(
                        self.input_size as int,
                        self.size as int,
                        input_index as int,
                        node_index as int,
                    );
                }
                let weight = weights[input_index * self.size + node_index];
                assert(input@[input_index as int].mul_req(weight));
                let term = input[input_index] * weight;
                assert(sum.add_req(term));
                sum = sum + term;
                input_index += 1;
            }
            assert(activation.requires((self.spec_activation(), sum)));
            output[node_index] = activation(self.activation_fn, sum);
            node_index += 1;
        }
    }

    /// What initialization guarantees of a weight row: every connection
    /// weight is a result of `next_weight` and every bias one of
    /// `next_bias`.
    pub open spec fn initialized<T, W: Fn() -> T, B: Fn() -> T>(
        &self,
        weights: Seq<T>,
        next_weight: W,
        next_bias: B,
    ) -> bool {
        let connections = self.spec_input_size() * self.spec_output_size();
        &&& weights.len() == self.spec_weight_buffer_size()
        &&& forall|k: int| 0 <= k < connections ==> next_weight.ensures((), #[trigger] weights[k])
        &&& forall|k: int|
            connections <= k < weights.len() ==> next_bias.ensures((), #[trigger] weights[k])
    }

    /// Fills the layer's weight row: the connection weights with what
    /// `next_weight` gives, one call per weight in the order of the row,
    /// and then the biases with what `next_bias` gives.
    pub fn initialize_weights<T, W: Fn() -> T, B: Fn() -> T>(
        &self,
        weight_buffer: &mut [T],
        next_weight: &W,
        next_bias: &B,
    )
        requires
            old(weight_buffer)@.len() == self.spec_weight_buffer_size(),
            next_weight.requires(()),
            next_bias.requires(()),
        ensures
            self.initialized(final(weight_buffer)@, *next_weight, *next_bias),
    {
        proof {
            use_type_invariant(self);
        }
        let mut k: usize = 0;
        while k < self.num_weights
            invariant
                k <= self.num_weights,
                self.sized(),
                weight_buffer@.len() == self.num_weights + self.size,
                next_weight.requires(()),
                forall|i: int| 0 <= i < k ==> next_weight.ensures((), #[trigger] weight_buffer@[i]),
            decreases self.num_weights - k,
        {
            weight_buffer[k] = next_weight();
            k += 1;
        }
        let end = self.num_weights + self.size;
        while k < end
            invariant
                self.num_weights <= k <= end,
                end == self.num_weights + self.size,
                weight_buffer@.len() == end,
                next_bias.requires(()),
                forall|i: int|
                    0 <= i < self.num_weights ==> next_weight.ensures(
                        (),
                        #[trigger] weight_buffer@[i],
                    ),
                forall|i: int|
                    self.num_weights <= i < k ==> next_bias.ensures((), #[trigger] weight_buffer@[i]),
            decreases end - k,
        {
            weight_buffer[k] = next_bias();
            k += 1;
        }
    }

    /// Whether `gradient` can be the gradient of a node with this output
    /// and this error gradient: the product of a result of `derivative` on
    /// the output and the error gradient.
    pub open spec fn is_node_gradient<T, G>(
        &self,
        output: T,
        output_error: T,
        gradient: T,
        derivative: G,
    ) -> bool where T: core::ops::Mul<Output = T>, G: Fn(A, T) -> T {
        exists|slope: T|
            #[trigger] derivative.ensures((self.spec_activation(), output), slope) && gradient
                == slope.mul_spec(output_error)
    }

    /// What a backward pass guarantees of the node gradients it works
    /// with: each is a result of `derivative` on the node's output, times
    /// the error gradient that arrived at the node.
    pub open spec fn gradients_relate<T, G>(
        &self,
        outputs: Seq<T>,
        output_errors: Seq<T>,
        gradients: Seq<T>,
        derivative: G,
    ) -> bool where T: core::ops::Mul<Output = T>, G: Fn(A, T) -> T {
        &&& gradients.len() == self.spec_output_size()
        &&& forall|node: int|
            0 <= node < self.spec_output_size() ==> self.is_node_gradient(
                outputs[node],
                output_errors[node],
                #[trigger] gradients[node],
                derivative,
            )
    }

    /// What a backward pass guarantees of the error gradients it hands to
    /// the layer below, given the node gradients.
    pub open spec fn input_errors_relate<T>(
        &self,
        weights: Seq<T>,
        gradients: Seq<T>,
        zero: T,
        input_errors: Seq<T>,
    ) -> bool where T: core::ops::Add<Output = T> + core::ops::Mul<Output = T> {
        &&& input_errors.len() == self.spec_input_size()
        &&& forall|input_index: int|
            0 <= input_index < self.spec_input_size() ==> #[trigger] input_errors[input_index]
                == input_error(
                weights,
                gradients,
                zero,
                self.spec_output_size() as int,
                input_index,
                self.spec_output_size() as int,
            )
    }

    /// What a backward pass guarantees of the weight deltas, given the node
    /// gradients: every connection's delta grows by its weight step and
    /// every bias's delta shrinks by its bias step.
    pub open spec fn deltas_relate<T>(
        &self,
        inputs: Seq<T>,
        gradients: Seq<T>,
        learning_rate: T,
        before: Seq<T>,
        after: Seq<T>,
    ) -> bool where
        T: core::ops::Add<Output = T> + core::ops::Sub<Output = T> + core::ops::Mul<
            Output = T,
        > + core::ops::Neg<Output = T>,
     {
        let input_size = self.spec_input_size() as int;
        let size = self.spec_output_size() as int;
        &&& after.len() == before.len()
        &&& forall|input_index: int, node: int|
            0 <= input_index < input_size && 0 <= node < size ==> after[#[trigger] weight_index(
                size,
                input_index,
                node,
            )] == before[weight_index(size, input_index, node)].add_spec(
                weight_step(learning_rate, gradients[node], inputs[input_index]),
            )
        &&& forall|node: int|
            0 <= node < size ==> after[#[trigger] bias_index(input_size, size, node)]
                == before[bias_index(input_size, size, node)].sub_spec(
                bias_step(learning_rate, gradients[node]),
            )
    }

    /// Propagates the error gradients of the layer's outputs back through
    /// the layer. `outputs` and `inputs` are what the forward pass produced
    /// and consumed, `output_errors` is the error gradient per node. The
    /// error gradient per input is written to `input_errors`, summed up from
    /// `zero`; the weight deltas of this sample are accumulated into
    /// `delta_target`, which is laid out like the weight row. The weights
    /// themselves are not changed.
    pub fn backprop<T, G>(
        &self,
        weight_buffer: &[T],
        output_errors: &[T],
        inputs: &[T],
        outputs: &[T],
        learning_rate: T,
        zero: T,
        input_errors: &mut [T],
        delta_target: &mut [T],
        derivative: &G,
    ) where
        T: Copy + core::ops::Add<Output = T> + core::ops::Sub<Output = T> + core::ops::Mul<
            Output = T,
        > + core::ops::Neg<Output = T>,
        G: Fn(A, T) -> T,

        requires
            weight_buffer@.len() == self.spec_weight_buffer_size(),
            output_errors@.len() == self.spec_output_size(),
            inputs@.len() == self.spec_input_size(),
            outputs@.len() == self.spec_output_size(),
            old(input_errors)@.len() == self.spec_input_size(),
            old(delta_target)@.len() == self.spec_weight_buffer_size(),
            add_is_total::<T>(),
            sub_is_total::<T>(),
            mul_is_total::<T>(),
            neg_is_total::<T>(),
            accepts_all(*derivative),
        ensures
            final(input_errors)@.len() == old(input_errors)@.len(),
            final(delta_target)@.len() == old(delta_target)@.len(),
            T::obeys_add_spec() && T::obeys_sub_spec() && T::obeys_mul_spec() && T::obeys_neg_spec()
                ==> exists|gradients: Seq<T>|
                {
                    &&& #[trigger] self.gradients_relate(
                        outputs@,
                        output_errors@,
                        gradients,
                        *derivative,
                    )
                    &&& self.input_errors_relate(
                        weight_buffer@,
                        gradients,
                        zero,
                        final(input_errors)@,
                    )
                    &&& self.deltas_relate(
                        inputs@,
                        gradients,
                        learning_rate,
                        old(delta_target)@,
                        final(delta_target)@,
                    )
                },
    {
        proof {
            use_type_invariant(self);
        }
        let ghost obeys = T::obeys_add_spec() && T::obeys_sub_spec() && T::obeys_mul_spec()
            && T::obeys_neg_spec();
        let ghost input_size = self.input_size as int;
        let ghost size = self.size as int;
        let (weights, _biases) = split_slice(weight_buffer, self.num_weights, self.size);
        let (weight_deltas, bias_deltas) = split_slice_mut(
            delta_target,
            self.num_weights,
            self.size,
        );
        let ghost old_weight_deltas = weight_deltas@;
        let ghost old_bias_deltas = bias_deltas@;
        let mut k: usize = 0;
        while k < self.input_size
            invariant
                k <= self.input_size,
                input_errors@.len() == self.input_size,
                forall|i: int| 0 <= i < k ==> input_errors@[i] == zero,
            decreases self.input_size - k,
        {
            input_errors[k] = zero;
            k += 1;
        }
        let ghost mut gradients: Seq<T> = Seq::empty();
        let mut node_index: usize = 0;
        while node_index < self.size
            invariant
                node_index <= self.size,
                self.sized(),
                input_size == self.input_size,
                size == self.size,
                obeys == (T::obeys_add_spec() && T::obeys_sub_spec() && T::obeys_mul_spec()
                    && T::obeys_neg_spec()),
                add_is_total::<T>(),
                sub_is_total::<T>(),
                mul_is_total::<T>(),
                neg_is_total::<T>(),
                accepts_all(*derivative),
                weight_buffer@.len() == self.num_weights + self.size,
                weights@ == weight_buffer@.subrange(0, self.num_weights as int),
                output_errors@.len() == size,
                inputs@.len() == input_size,
                outputs@.len() == size,
                input_errors@.len() == input_size,
                weight_deltas@.len() == self.num_weights,
                bias_deltas@.len() == size,
                old_weight_deltas.len() == self.num_weights,
                old_bias_deltas.len() == size,
                gradients.len() == node_index,
                obeys ==> forall|node: int|
                    0 <= node < node_index ==> self.is_node_gradient(
                        outputs@[node],
                        output_errors@[node],
                        #[trigger] gradients[node],
                        *derivative,
                    ),
                obeys ==> forall|i: int|
                    0 <= i < input_size ==> #[trigger] input_errors@[i] == input_error(
                        weight_buffer@,
                        gradients,
                        zero,
                        size,
                        i,
                        node_index as int,
                    ),
                forall|i: int, node: int|
                    0 <= i < input_size && node_index <= node < size
                        ==> weight_deltas@[#[trigger] weight_index(size, i, node)]
                        == old_weight_deltas[weight_index(size, i, node)],
                obeys ==> forall|i: int, node: int|
                    0 <= i < input_size && 0 <= node < node_index
                        ==> weight_deltas@[#[trigger] weight_index(size, i, node)]
                        == old_weight_deltas[weight_index(size, i, node)].add_spec(
                        weight_step(learning_rate, gradients[node], inputs@[i]),
                    ),
                forall|node: int|
                    node_index <= node < size ==> #[trigger] bias_deltas@[node]
                        == old_bias_deltas[node],
                obeys ==> forall|node: int|
                    0 <= node < node_index ==> #[trigger] bias_deltas@[node]
                        == old_bias_deltas[node].sub_spec(bias_step(learning_rate, gradients[node])),
            decreases self.size - node_index,
        {
            let node_error = output_errors[node_index];
            assert(derivative.requires((self.spec_activation(), outputs@[node_index as int])));
            let node_gradient = derivative(self.activation_fn, outputs[node_index]);
            assert(node_gradient.mul_req(node_error));
            let node_error_gradient = node_gradient * node_error;
            let ghost earlier = gradients;
            proof {
                gradients = gradients.push(node_error_gradient);
                assert forall|i: int| 0 <= i < input_size implies input_error(
                    weight_buffer@,
                    gradients,
                    zero,
                    size,
                    i,
                    node_index as int,
                ) == input_error(weight_buffer@, earlier, zero, size, i, node_index as int) by {
                    lemma_input_error_prefix(
                        weight_buffer@,
                        gradients,
                        earlier,
                        zero,
                        size,
                        i,
                        node_index as int,
                    );
                }
                if obeys {
                    assert(self.is_node_gradient(
                        outputs@[node_index as int],
                        output_errors@[node_index as int],
                        node_error_gradient,
                        *derivative,
                    )) by {
                        assert(derivative.ensures(
                            (self.spec_activation(), outputs@[node_index as int]),
                            node_gradient,
                        ));
                    }
                    assert forall|node: int| 0 <= node < node_index + 1 implies self.is_node_gradient(
                        outputs@[node],
                        output_errors@[node],
                        #[trigger] gradients[node],
                        *derivative,
                    ) by {
                        if node < node_index {
                            assert(gradients[node] == earlier[node]);
                        }
                    }
                }
            }
            let mut input_index: usize = 0;
            while input_index < self.input_size
                invariant
                    input_index <= self.input_size,
                    node_index < self.size,
                    self.sized(),
                    input_size == self.input_size,
                    size == self.size,
                    obeys == (T::obeys_add_spec() && T::obeys_sub_spec() && T::obeys_mul_spec()
                        && T::obeys_neg_spec()),
                    add_is_total::<T>(),
                    mul_is_total::<T>(),
                    neg_is_total::<T>(),
                    weight_buffer@.len() == self.num_weights + self.size,
                    weights@ == weight_buffer@.subrange(0, self.num_weights as int),
                    inputs@.len() == input_size,
                    input_errors@.len() == input_size,
                    weight_deltas@.len() == self.num_weights,
                    old_weight_deltas.len() == self.num_weights,
                    gradients.len() == node_index + 1,
                    gradients[node_index as int] == node_error_gradient,
                    outputs@.len() == size,
                    output_errors@.len() == size,
                    obeys ==> forall|node: int|
                        0 <= node < node_index + 1 ==> self.is_node_gradient(
                            outputs@[node],
                            output_errors@[node],
                            #[trigger] gradients[node],
                            *derivative,
                        ),
                    obeys ==> forall|i: int|
                        0 <= i < input_index ==> #[trigger] input_errors@[i] == input_error(
                            weight_buffer@,
                            gradients,
                            zero,
                            size,
                            i,
                            node_index + 1,
                        ),
                    obeys ==> forall|i: int|
                        input_index <= i < input_size ==> #[trigger] input_errors@[i]
                            == input_error(
                            weight_buffer@,
                            gradients,
                            zero,
                            size,
                            i,
                            node_index as int,
                        ),
                    forall|i: int, node: int|
                        0 <= i < input_size && node_index < node < size
                            ==> weight_deltas@[#[trigger] weight_index(size, i, node)]
                            == old_weight_deltas[weight_index(size, i, node)],
                    forall|i: int|
                        input_index <= i < input_size ==> weight_deltas@[#[trigger] weight_index(
                            size,
                            i,
                            node_index as int,
                        )] == old_weight_deltas[weight_index(size, i, node_index as int)],
                    obeys ==> forall|i: int, node: int|
                        0 <= i < input_size && 0 <= node < node_index
                            ==> weight_deltas@[#[trigger] weight_index(size, i, node)]
                            == old_weight_deltas[weight_index(size, i, node)].add_spec(
                            weight_step(learning_rate, gradients[node], inputs@[i]),
                        ),
                    obeys ==> forall|i: int|
                        0 <= i < input_index ==> weight_deltas@[#[trigger] weight_index(
                            size,
                            i,
                            node_index as int,
                        )] == old_weight_deltas[weight_index(size, i, node_index as int)].add_spec(
                            weight_step(learning_rate, node_error_gradient, inputs@[i]),
                        ),
                decreases self.input_size - input_index,
            {
                proof {
                    lemma_weight_indices(input_size, size);
                    assert(weight_index(size, input_index as int, node_index as int) < input_size
                        * size);
                }
                let at = input_index * self.size + node_index;
                assert(at == weight_index(size, input_index as int, node_index as int));
                let input = inputs[input_index];
                let connection_weight = weights[at];
                assert(learning_rate.neg_req());
                let negated_rate = core::ops::Neg::neg(learning_rate);
                assert(negated_rate.mul_req(node_error_gradient));
                let scaled = negated_rate * node_error_gradient;
                assert(scaled.mul_req(input));
                let weight_delta = scaled * input;
                let previous_delta = weight_deltas[at];
                assert(previous_delta.add_req(weight_delta));
                weight_deltas[at] = previous_delta + weight_delta;
                assert(connection_weight.mul_req(node_error_gradient));
                let passed_down = connection_weight * node_error_gradient;
                let previous_error = input_errors[input_index];
                assert(previous_error.add_req(passed_down));
                input_errors[input_index] = previous_error + passed_down;
                input_index += 1;
            }
            assert(learning_rate.mul_req(node_error_gradient));
            let bias_delta = learning_rate * node_error_gradient;
            let previous_bias_delta = bias_deltas[node_index];
            assert(previous_bias_delta.sub_req(bias_delta));
            bias_deltas[node_index] = previous_bias_delta - bias_delta;
            node_index += 1;
        }
        proof {
            if obeys {
                assert(self.gradients_relate(outputs@, output_errors@, gradients, *derivative));
                assert(self.input_errors_relate(weight_buffer@, gradients, zero, input_errors@));
                let after = weight_deltas@ + bias_deltas@;
                let before = old(delta_target)@;
                assert forall|i: int, node: int|
                    0 <= i < input_size && 0 <= node < size implies after[#[trigger] weight_index(
                    size,
                    i,
                    node,
                )] == before[weight_index(size, i, node)].add_spec(
                    weight_step(learning_rate, gradients[node], inputs@[i]),
                ) by {
                    lemma_weight_indices(input_size, size);
                }
                assert forall|node: int| 0 <= node < size implies after[#[trigger] bias_index(
                    input_size,
                    size,
                    node,
                )] == before[bias_index(input_size, size, node)].sub_spec(
                    bias_step(learning_rate, gradients[node]),
                ) by {
                    assert(after[bias_index(input_size, size, node)] == bias_deltas@[node]);
                    assert(before[bias_index(input_size, size, node)] == old_bias_deltas[node]);
                }
                assert(self.deltas_relate(inputs@, gradients, learning_rate, before, after));
            }
        }
    }
}

/// A layer of a network. There is one kind so far.
#[derive(Copy, Debug)]
pub enum NetLayer<A> {
    /// Every node is connected to every input.
    FullyConnected(FullyConnectedNetLayer<A>),
}

impl<A: Copy> Clone for NetLayer<A> {
    fn clone(&self) -> (copy: Self)
        ensures
            copy == *self,
    {
        *self
    }
}

impl<A: Copy> NetLayerConfig<A> {
    /// Number of nodes of the layer this configuration describes.
    pub open spec fn spec_output_size(&self) -> usize {
        match *self {
            NetLayerConfig::FullyConnected(size, _) => size,
        }
    }

    /// Length of the weight row of the layer that this configuration makes
    /// over `input_size` inputs.
    pub open spec fn spec_weight_buffer_size(&self, input_size: int) -> int {
        match *self {
            NetLayerConfig::FullyConnected(size, _) => fully_connected_weights(
                input_size,
                size as int,
            ),
        }
    }

    /// Number of nodes of the layer this configuration describes.
    pub fn output_size(&self) -> (n: usize)
        ensures
            n == self.spec_output_size(),
    {
        match *self {
            NetLayerConfig::FullyConnected(size, _) => size,
        }
    }

    /// Makes the layer over `input_size` inputs.
    pub fn create_layer(&self, input_size: usize) -> (layer: NetLayer<A>)
        requires
            self.spec_weight_buffer_size(input_size as int) <= usize::MAX,
        ensures
            layer.spec_input_size() == input_size,
            layer.spec_config() == *self,
    {
        match *self {
            NetLayerConfig::FullyConnected(size, activation_fn) => NetLayer::FullyConnected(
                FullyConnectedNetLayer::new(input_size, size, activation_fn),
            ),
        }
    }
}

impl<A: Copy> NetLayer<A> {
    /// Number of inputs.
    pub open spec fn spec_input_size(&self) -> usize {
        match *self {
            NetLayer::FullyConnected(layer) => layer.spec_input_size(),
        }
    }

    /// Number of outputs.
    pub open spec fn spec_output_size(&self) -> usize {
        match *self {
            NetLayer::FullyConnected(layer) => layer.spec_output_size(),
        }
    }

    /// Length of the layer's weight row.
    pub open spec fn spec_weight_buffer_size(&self) -> int {
        match *self {
            NetLayer::FullyConnected(layer) => layer.spec_weight_buffer_size(),
        }
    }

    /// The activation function's description.
    pub open spec fn spec_activation(&self) -> A {
        match *self {
            NetLayer::FullyConnected(layer) => layer.spec_activation(),
        }
    }

    /// The configuration the layer was made from.
    pub open spec fn spec_config(&self) -> NetLayerConfig<A> {
        match *self {
            NetLayer::FullyConnected(layer) => NetLayerConfig::FullyConnected(
                layer.spec_output_size(),
                layer.spec_activation(),
            ),
        }
    }

    /// What a forward pass guarantees of `output`.
    pub open spec fn forward_relates<T, F>(
        &self,
        weights: Seq<T>,
        input: Seq<T>,
        output: Seq<T>,
        activation: F,
    ) -> bool where
        T: core::ops::Add<Output = T> + core::ops::Mul<Output = T>,
        F: Fn(A, T) -> T,
     {
        match *self {
            NetLayer::FullyConnected(layer) => layer.forward_relates(
                weights,
                input,
                output,
                activation,
            ),
        }
    }

    /// What initialization guarantees of the layer's weight row.
    pub open spec fn initialized<T, W: Fn() -> T, B: Fn() -> T>(
        &self,
        weights: Seq<T>,
        next_weight: W,
        next_bias: B,
    ) -> bool {
        match *self {
            NetLayer::FullyConnected(layer) => layer.initialized(weights, next_weight, next_bias),
        }
    }

    /// Fills the layer's weight row with what `next_weight` and `next_bias`
    /// give.
    pub fn initialize_weights<T, W: Fn() -> T, B: Fn() -> T>(
        &self,
        weight_buffer: &mut [T],
        next_weight: &W,
        next_bias: &B,
    )
        requires
            old(weight_buffer)@.len() == self.spec_weight_buffer_size(),
            next_weight.requires(()),
            next_bias.requires(()),
        ensures
            self.initialized(final(weight_buffer)@, *next_weight, *next_bias),
    {
        match self {
            NetLayer::FullyConnected(layer) => layer.initialize_weights(
                weight_buffer,
                next_weight,
                next_bias,
            ),
        }
    }

    /// What a backward pass guarantees of the error gradients it hands
    /// down and of the weight deltas, for some gradients of the nodes.
    pub open spec fn backprop_relates<T, G>(
        &self,
        weights: Seq<T>,
        output_errors: Seq<T>,
        inputs: Seq<T>,
        outputs: Seq<T>,
        learning_rate: T,
        zero: T,
        input_errors: Seq<T>,
        deltas_before: Seq<T>,
        deltas_after: Seq<T>,
        derivative: G,
    ) -> bool where
        T: core::ops::Add<Output = T> + core::ops::Sub<Output = T> + core::ops::Mul<
            Output = T,
        > + core::ops::Neg<Output = T>,
        G: Fn(A, T) -> T,
     {
        match *self {
            NetLayer::FullyConnected(layer) => exists|gradients: Seq<T>|
                {
                    &&& #[trigger] layer.gradients_relate(
                        outputs,
                        output_errors,
                        gradients,
                        derivative,
                    )
                    &&& layer.input_errors_relate(weights, gradients, zero, input_errors)
                    &&& layer.deltas_relate(
                        inputs,
                        gradients,
                        learning_rate,
                        deltas_before,
                        deltas_after,
                    )
                },
        }
    }

    /// Number of inputs.
    #[verifier::when_used_as_spec(spec_input_size)]
    pub fn input_size(&self) -> (n: usize)
        ensures
            n == self.spec_input_size(),
    {
        match self {
            NetLayer::FullyConnected(layer) => layer.input_size(),
        }
    }

    /// Number of outputs.
    #[verifier::when_used_as_spec(spec_output_size)]
    pub fn output_size(&self) -> (n: usize)
        ensures
            n == self.spec_output_size(),
    {
        match self {
            NetLayer::FullyConnected(layer) => layer.output_size(),
        }
    }

    /// Length of the layer's weight row.
    pub fn weight_buffer_size(&self) -> (n: usize)
        ensures
            n == self.spec_weight_buffer_size(),
    {
        match self {
            NetLayer::FullyConnected(layer) => layer.weight_buffer_size(),
        }
    }

    /// The configuration the layer was made from.
    pub fn get_config(&self) -> (config: NetLayerConfig<A>)
        ensures
            config == self.spec_config(),
    {
        match self {
            NetLayer::FullyConnected(layer) => layer.get_config(),
        }
    }

    /// Computes the layer's output for `input`.
    pub fn forward_pass<T, F>(
        &self,
        weight_buffer: &[T],
        input: &[T],
        output: &mut [T],
        activation: &F,
    ) where T: Copy + core::ops::Add<Output = T> + core::ops::Mul<Output = T>, F: Fn(A, T) -> T
        requires
            weight_buffer@.len() == self.spec_weight_buffer_size(),
            input@.len() == self.spec_input_size(),
            old(output)@.len() == self.spec_output_size(),
            add_is_total::<T>(),
            mul_is_total::<T>(),
            accepts_all(*activation),
        ensures
            final(output)@.len() == old(output)@.len(),
            T::obeys_add_spec() && T::obeys_mul_spec() ==> self.forward_relates(
                weight_buffer@,
                input@,
                final(output)@,
                *activation,
            ),
    {
        match self {
            NetLayer::FullyConnected(layer) => layer.forward_pass(
                weight_buffer,
                input,
                output,
                activation,
            ),
        }
    }

    /// Propagates the error gradients of the layer's outputs back through
    /// the layer, accumulating this sample's weight deltas.
    pub fn backprop<T, G>(
        &self,
        weight_buffer: &[T],
        output_errors: &[T],
        inputs: &[T],
        outputs: &[T],
        learning_rate: T,
        zero: T,
        input_errors: &mut [T],
        delta_target: &mut [T],
        derivative: &G,
    ) where
        T: Copy + core::ops::Add<Output = T> + core::ops::Sub<Output = T> + core::ops::Mul<
            Output = T,
        > + core::ops::Neg<Output = T>,
        G: Fn(A, T) -> T,

        requires
            weight_buffer@.len() == self.spec_weight_buffer_size(),
            output_errors@.len() == self.spec_output_size(),
            inputs@.len() == self.spec_input_size(),
            outputs@.len() == self.spec_output_size(),
            old(input_errors)@.len() == self.spec_input_size(),
            old(delta_target)@.len() == self.spec_weight_buffer_size(),
            add_is_total::<T>(),
            sub_is_total::<T>(),
            mul_is_total::<T>(),
            neg_is_total::<T>(),
            accepts_all(*derivative),
        ensures
            final(input_errors)@.len() == old(input_errors)@.len(),
            final(delta_target)@.len() == old(delta_target)@.len(),
            T::obeys_add_spec() && T::obeys_sub_spec() && T::obeys_mul_spec() && T::obeys_neg_spec()
                ==> self.backprop_relates(
                weight_buffer@,
                output_errors@,
                inputs@,
                outputs@,
                learning_rate,
                zero,
                final(input_errors)@,
                old(delta_target)@,
                final(delta_target)@,
                *derivative,
            ),
    {
        match self {
            NetLayer::FullyConnected(layer) => layer.backprop(
                weight_buffer,
                output_errors,
                inputs,
                outputs,
                learning_rate,
                zero,
                input_errors,
                delta_target,
                derivative,
            ),
        }
    }
}

} // verus!
