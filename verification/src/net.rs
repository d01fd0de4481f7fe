//! Networks: an ordered list of layers over one arena of weights.

use vstd::prelude::*;
use vstd::slice::slice_subrange;
use vstd::std_specs::ops::AddSpec;
use vstd::std_specs::ops::MulSpec;
use crate::buffer::row::prefix_sum;
use crate::buffer::row::total_size;
use crate::buffer::row::RowBuffer;
use crate::layer::NetLayer;
use crate::layer::NetLayerConfig;
use crate::scalar::accepts_all;
use crate::scalar::add_is_total;
use crate::scalar::mul_is_total;
use crate::train::context::NetTrainingContext;

verus! {

/// A network's configuration as contracts see it.
pub struct NetConfigView<A> {
    pub input_size: usize,
    pub layers: Seq<NetLayerConfig<A>>,
}

impl<A: Copy> NetConfigView<A> {
    /// Number of inputs of layer `i`: the network's for the first layer, the
    /// number of outputs of the layer before for every other.
    pub open spec fn input_size_of(self, i: int) -> usize {
        if i <= 0 {
            self.input_size
        } else {
            self.layers[i - 1].spec_output_size()
        }
    }

    /// Length of the weight row of layer `i`.
    pub open spec fn weight_size_of(self, i: int) -> int {
        self.layers[i].spec_weight_buffer_size(self.input_size_of(i) as int)
    }

    /// The largest number of outputs among the first `n` layers.
    pub open spec fn max_output_size(self, n: int) -> usize
        decreases n,
    {
        if n <= 0 {
            0
        } else if self.layers[n - 1].spec_output_size() > self.max_output_size(n - 1) {
            self.layers[n - 1].spec_output_size()
        } else {
            self.max_output_size(n - 1)
        }
    }

    /// A configuration describes a network when it has inputs, at least one
    /// layer, and no layer without nodes.
    pub open spec fn valid(self) -> bool {
        &&& self.input_size > 0
        &&& self.layers.len() >= 1
        &&& forall|i: int|
            0 <= i < self.layers.len() ==> (#[trigger] self.layers[i]).spec_output_size() > 0
    }

    /// The number of outputs of every layer, as sizes of arena rows.
    pub open spec fn output_sizes(self) -> Seq<usize> {
        Seq::new(self.layers.len(), |i: int| self.layers[i].spec_output_size())
    }

    /// The weight rows of all layers, as sizes of arena rows.
    pub open spec fn weight_sizes(self) -> Seq<usize> {
        Seq::new(self.layers.len(), |i: int| self.weight_size_of(i) as usize)
    }

    /// Whether the network's buffers can be addressed: every weight row,
    /// all weight rows together, and the two scratch rows of a prediction.
    pub open spec fn fits(self) -> bool {
        &&& forall|i: int| 0 <= i < self.layers.len() ==> #[trigger] self.weight_size_of(i) <= usize::MAX
        &&& total_size(self.weight_sizes()) <= usize::MAX
        &&& 2 * self.max_output_size(self.layers.len() as int) <= usize::MAX
    }
}

/// The shape of a network: the number of inputs and the layers in order.
#[derive(Clone, Debug, PartialEq)]
pub struct NetConfig<A> {
    input_size: usize,
    layers: Vec<NetLayerConfig<A>>,
}

impl<A> View for NetConfig<A> {
    type V = NetConfigView<A>;

    closed spec fn view(&self) -> NetConfigView<A> {
        NetConfigView { input_size: self.input_size, layers: self.layers@ }
    }
}

impl<A: Copy> NetConfig<A> {
    /// A network of fully connected layers: one per entry of
    /// `hidden_layer_sizes`, then the output layer, all with the same
    /// activation function.
    pub fn new_fully_connected(
        input_size: usize,
        output_size: usize,
        hidden_layer_sizes: &[usize],
        activation_fn: A,
    ) -> (config: Self)
        requires
            input_size > 0,
            output_size > 0,
            forall|i: int| 0 <= i < hidden_layer_sizes@.len() ==> hidden_layer_sizes@[i] > 0,
        ensures
            config@.valid(),
            config@.input_size == input_size,
            config@.layers == Seq::new(
                hidden_layer_sizes@.len(),
                |i: int| NetLayerConfig::FullyConnected(hidden_layer_sizes@[i], activation_fn),
            ).push(NetLayerConfig::FullyConnected(output_size, activation_fn)),
    {
        let mut layers: Vec<NetLayerConfig<A>> = Vec::new();
        let mut k: usize = 0;
        while k < hidden_layer_sizes.len()
            invariant
                k <= hidden_layer_sizes@.len(),
                layers@ == Seq::new(
                    k as nat,
                    |i: int| NetLayerConfig::FullyConnected(hidden_layer_sizes@[i], activation_fn),
                ),
            decreases hidden_layer_sizes@.len() - k,
        {
            layers.push(NetLayerConfig::FullyConnected(hidden_layer_sizes[k], activation_fn));
            k += 1;
            assert(layers@ =~= Seq::new(
                k as nat,
                |i: int| NetLayerConfig::FullyConnected(hidden_layer_sizes@[i], activation_fn),
            ));
        }
        layers.push(NetLayerConfig::FullyConnected(output_size, activation_fn));
        NetConfig { input_size, layers }
    }

    /// Number of inputs of the network.
    pub fn input_size(&self) -> (n: usize)
        ensures
            n == self@.input_size,
    {
        self.input_size
    }

    /// The layers' configurations, in order.
    pub fn layers(&self) -> (layers: &[NetLayerConfig<A>])
        ensures
            layers@ == self@.layers,
    {
        self.layers.as_slice()
    }
}

impl<A: Copy> NetConfigView<A> {
    /// The outputs of the first `n` layers take no more room than their
    /// weights, which hold one bias per output.
    pub proof fn lemma_outputs_within_weights(self, n: int)
        requires
            0 <= n <= self.layers.len(),
            forall|i: int| 0 <= i < self.layers.len() ==> #[trigger] self.weight_size_of(i) <= usize::MAX,
        ensures
            prefix_sum(self.output_sizes(), n) <= prefix_sum(self.weight_sizes(), n),
        decreases n,
    {
        if n > 0 {
            self.lemma_outputs_within_weights(n - 1);
            let size = self.layers[n - 1].spec_output_size() as int;
            let inputs = self.input_size_of(n - 1) as int;
            assert(self.weight_size_of(n - 1) <= usize::MAX);
            assert(0 <= inputs * size) by (nonlinear_arith)
                requires
                    0 <= inputs,
                    0 <= size,
            ;
            assert(self.weight_sizes()[n - 1] == self.weight_size_of(n - 1));
            assert(self.output_sizes()[n - 1] == size);
        }
    }

    /// No layer has more outputs than the largest number of outputs.
    pub proof fn lemma_max_output_size(self, n: int, i: int)
        requires
            0 <= i < n <= self.layers.len(),
        ensures
            self.layers[i].spec_output_size() <= self.max_output_size(n),
        decreases n,
    {
        if i < n - 1 {
            self.lemma_max_output_size(n - 1, i);
        }
    }
}

/// A feed-forward network. Layer `i` reads the output of layer `i - 1` (the
/// first one reads the network's input), and its weights are row `i` of the
/// network's weight arena.
#[derive(Debug)]
pub struct Net<T, A> {
    weight_buffer: RowBuffer<T>,
    input_size: usize,
    output_size: usize,
    layers: Vec<NetLayer<A>>,
    prediction_buffers: RowBuffer<T>,
}

impl<T: Copy, A: Copy> Clone for Net<T, A> {
    /// A second network with the same layers and the same weights.
    fn clone(&self) -> (copy: Self)
        ensures
            copy.spec_layers() == self.spec_layers(),
            copy.spec_input_size() == self.spec_input_size(),
            copy.spec_output_size() == self.spec_output_size(),
            copy.spec_weights()@ == self.spec_weights()@,
            copy.spec_weights().layout() == self.spec_weights().layout(),
            copy.spec_scratch()@ == self.spec_scratch()@,
            copy.spec_scratch().layout() == self.spec_scratch().layout(),
            self.wf() ==> copy.wf(),
    {
        let mut layers: Vec<NetLayer<A>> = Vec::with_capacity(self.layers.len());
        let mut k: usize = 0;
        while k < self.layers.len()
            invariant
                k <= self.layers@.len(),
                layers@ == self.layers@.subrange(0, k as int),
            decreases self.layers@.len() - k,
        {
            layers.push(self.layers[k]);
            k += 1;
            assert(layers@ =~= self.layers@.subrange(0, k as int));
        }
        assert(layers@ =~= self.layers@);
        let copy = Net {
            weight_buffer: self.weight_buffer.clone(),
            input_size: self.input_size,
            output_size: self.output_size,
            layers,
            prediction_buffers: self.prediction_buffers.clone(),
        };
        proof {
            if self.wf() {
                assert(copy.config() =~= self.config());
                self.spec_weights().lemma_same_layout(&copy.spec_weights());
                self.spec_scratch().lemma_same_layout(&copy.spec_scratch());
            }
        }
        copy
    }
}

impl<T, A: Copy> Net<T, A> {
    /// The layers, in order.
    pub closed spec fn spec_layers(&self) -> Seq<NetLayer<A>> {
        self.layers@
    }

    /// The arena that holds the weights, one row per layer.
    pub closed spec fn spec_weights(&self) -> RowBuffer<T> {
        self.weight_buffer
    }

    /// The two scratch rows that a prediction passes intermediate outputs
    /// through.
    pub closed spec fn spec_scratch(&self) -> RowBuffer<T> {
        self.prediction_buffers
    }

    /// Number of inputs.
    pub closed spec fn spec_input_size(&self) -> usize {
        self.input_size
    }

    /// Number of outputs.
    pub closed spec fn spec_output_size(&self) -> usize {
        self.output_size
    }

    /// The network's shape.
    pub open spec fn config(&self) -> NetConfigView<A> {
        NetConfigView {
            input_size: self.spec_input_size(),
            layers: Seq::new(
                self.spec_layers().len(),
                |i: int| self.spec_layers()[i].spec_config(),
            ),
        }
    }

    /// The network's invariant: the layers form a chain from the network's
    /// input to its output, the weight arena has one row of the right size
    /// per layer, and each scratch row can take any layer's output.
    pub open spec fn wf(&self) -> bool {
        let config = self.config();
        let layers = self.spec_layers();
        &&& config.valid()
        &&& forall|i: int|
            0 <= i < layers.len() ==> layers[i].spec_input_size() == #[trigger] config.input_size_of(
                i,
            )
        &&& self.spec_output_size() == layers.last().spec_output_size()
        &&& forall|i: int| 0 <= i < layers.len() ==> #[trigger] config.weight_size_of(i) <= usize::MAX
        &&& self.spec_weights().wf()
        &&& self.spec_weights().row_sizes() == config.weight_sizes()
        &&& self.spec_scratch().wf()
        &&& self.spec_scratch().row_sizes() == seq![
            config.max_output_size(layers.len() as int),
            config.max_output_size(layers.len() as int),
        ]
    }

    /// In a well-formed network every layer finds its weights in its row
    /// of the arena, takes what the layer before it gives, and fits its
    /// output into a scratch row.
    pub proof fn lemma_layer_shapes(&self, i: int)
        requires
            self.wf(),
            0 <= i < self.spec_layers().len(),
        ensures
            self.spec_weights().row_sizes().len() == self.spec_layers().len(),
            self.spec_weights().row_sizes()[i] == self.spec_layers()[i].spec_weight_buffer_size(),
            self.spec_weights().row(i).len() == self.spec_layers()[i].spec_weight_buffer_size(),
            self.spec_layers()[i].spec_output_size() > 0,
            self.spec_layers()[i].spec_input_size() > 0,
            i == 0 ==> self.spec_layers()[i].spec_input_size() == self.spec_input_size(),
            i > 0 ==> self.spec_layers()[i].spec_input_size() == self.spec_layers()[i
                - 1].spec_output_size(),
            self.spec_layers()[i].spec_output_size() <= self.spec_scratch().row_sizes()[0],
            self.spec_layers()[i].spec_output_size() <= self.spec_scratch().row_sizes()[1],
            self.spec_scratch().row_sizes().len() == 2,
    {
        let config = self.config();
        let layers = self.spec_layers();
        assert(config.layers[i] == layers[i].spec_config());
        assert(config.weight_size_of(i) <= usize::MAX);
        assert(config.weight_sizes()[i] == config.weight_size_of(i));
        assert(layers[i].spec_input_size() == config.input_size_of(i));
        if i > 0 {
            assert(config.layers[i - 1] == layers[i - 1].spec_config());
        }
        config.lemma_max_output_size(layers.len() as int, i);
        self.spec_weights().lemma_row_in_bounds(i);
    }
}

impl<T: Copy, A: Copy> Net<T, A> {
    /// A network over the given layers, with all weights set to `zero`.
    fn new(input_size: usize, layers: Vec<NetLayer<A>>, zero: T) -> (net: Self)
        requires
            Self::shape_of(input_size, layers@).valid(),
            Self::shape_of(input_size, layers@).fits(),
            forall|i: int|
                0 <= i < layers@.len() ==> layers@[i].spec_input_size() == #[trigger] Self::shape_of(
                    input_size,
                    layers@,
                ).input_size_of(i),
        ensures
            net.wf(),
            net.spec_layers() == layers@,
            net.spec_input_size() == input_size,
            net.spec_weights()@ == Seq::new(
                total_size(net.config().weight_sizes()) as nat,
                |i: int| zero,
            ),
    {
        let ghost shape = Self::shape_of(input_size, layers@);
        let mut row_buffer_sizes: Vec<usize> = Vec::with_capacity(layers.len());
        let mut max_output_size: usize = 0;
        let mut k: usize = 0;
        while k < layers.len()
            invariant
                k <= layers@.len(),
                shape == Self::shape_of(input_size, layers@),
                shape.valid(),
                shape.fits(),
                forall|i: int|
                    0 <= i < layers@.len() ==> layers@[i].spec_input_size()
                        == #[trigger] shape.input_size_of(i),
                row_buffer_sizes@.len() == k,
                forall|i: int| 0 <= i < k ==> #[trigger] row_buffer_sizes@[i] == shape.weight_size_of(i),
                max_output_size == shape.max_output_size(k as int),
            decreases layers@.len() - k,
        {
            assert(shape.layers[k as int] == layers@[k as int].spec_config());
            assert(shape.weight_size_of(k as int) <= usize::MAX);
            row_buffer_sizes.push(layers[k].weight_buffer_size());
            let size = layers[k].output_size();
            if size > max_output_size {
                max_output_size = size;
            }
            k += 1;
        }
        assert(row_buffer_sizes@ =~= shape.weight_sizes());
        let weight_buffer = RowBuffer::new_with_row_sizes(zero, row_buffer_sizes.as_slice());
        let scratch_sizes: [usize; 2] = [max_output_size, max_output_size];
        assert(total_size(scratch_sizes@) == 2 * max_output_size) by {
            reveal_with_fuel(crate::buffer::row::prefix_sum, 3);
        }
        let prediction_buffers = RowBuffer::new_with_row_sizes(zero, scratch_sizes.as_slice());
        let output_size = layers[layers.len() - 1].output_size();
        let net = Net { weight_buffer, input_size, output_size, layers, prediction_buffers };
        proof {
            assert(net.config() =~= shape);
            assert(net.spec_scratch().row_sizes() =~= seq![
                shape.max_output_size(layers@.len() as int),
                shape.max_output_size(layers@.len() as int),
            ]);
        }
        net
    }
}

impl<T, A: Copy> Net<T, A> {
    /// The shape of a network with these inputs and layers.
    pub open spec fn shape_of(input_size: usize, layers: Seq<NetLayer<A>>) -> NetConfigView<A> {
        NetConfigView {
            input_size,
            layers: Seq::new(layers.len(), |i: int| layers[i].spec_config()),
        }
    }

    /// Number of layers.
    pub fn num_layers(&self) -> (n: usize)
        ensures
            n == self.spec_layers().len(),
    {
        self.layers.len()
    }

    /// Layer `index`.
    pub fn layer(&self, index: usize) -> (layer: &NetLayer<A>)
        requires
            index < self.spec_layers().len(),
        ensures
            *layer == self.spec_layers()[index as int],
    {
        &self.layers[index]
    }

    /// The layer that reads the network's input.
    pub fn first_layer(&self) -> (layer: &NetLayer<A>)
        requires
            self.spec_layers().len() > 0,
        ensures
            *layer == self.spec_layers()[0],
    {
        &self.layers[0]
    }

    /// The layer that gives the network's output.
    pub fn last_layer(&self) -> (layer: &NetLayer<A>)
        requires
            self.spec_layers().len() > 0,
        ensures
            *layer == self.spec_layers().last(),
    {
        &self.layers[self.layers.len() - 1]
    }

    /// All layers, in order.
    pub fn layers(&self) -> (layers: &[NetLayer<A>])
        ensures
            layers@ == self.spec_layers(),
    {
        self.layers.as_slice()
    }

    /// Number of inputs.
    pub fn input_size(&self) -> (n: usize)
        ensures
            n == self.spec_input_size(),
    {
        self.input_size
    }

    /// Number of outputs.
    pub fn output_size(&self) -> (n: usize)
        ensures
            n == self.spec_output_size(),
    {
        self.output_size
    }

    /// The weights, one arena row per layer.
    pub fn get_weights(&self) -> (weights: &RowBuffer<T>)
        ensures
            *weights == self.spec_weights(),
    {
        &self.weight_buffer
    }

    /// The weights for writing. Nothing else of the network changes.
    pub fn get_weights_mut(&mut self) -> (weights: &mut RowBuffer<T>)
        ensures
            *weights == old(self).spec_weights(),
            final(self).spec_weights() == *final(weights),
            final(self).spec_layers() == old(self).spec_layers(),
            final(self).spec_scratch() == old(self).spec_scratch(),
            final(self).spec_input_size() == old(self).spec_input_size(),
            final(self).spec_output_size() == old(self).spec_output_size(),
    {
        &mut self.weight_buffer
    }

    /// The configuration that gives a network of this shape.
    pub fn get_config(&self) -> (config: NetConfig<A>)
        ensures
            config@ == self.config(),
    {
        let mut layers: Vec<NetLayerConfig<A>> = Vec::with_capacity(self.layers.len());
        let mut k: usize = 0;
        while k < self.layers.len()
            invariant
                k <= self.layers@.len(),
                layers@.len() == k,
                forall|i: int| 0 <= i < k ==> #[trigger] layers@[i] == self.layers@[i].spec_config(),
            decreases self.layers@.len() - k,
        {
            layers.push(self.layers[k].get_config());
            k += 1;
        }
        let config = NetConfig { input_size: self.input_size, layers };
        assert(config@.layers =~= self.config().layers);
        config
    }
}

impl<T: Copy, A: Copy> Net<T, A> {
    /// An arena shaped like the network's weights, every element `zero`.
    pub fn new_zeroed_weight_buffer(&self, zero: T) -> (arena: RowBuffer<T>)
        requires
            self.wf(),
        ensures
            arena.wf(),
            arena.row_sizes() == self.spec_weights().row_sizes(),
            arena@ == Seq::new(self.spec_weights()@.len(), |i: int| zero),
    {
        let mut layer_sizes: Vec<usize> = Vec::with_capacity(self.layers.len());
        let mut k: usize = 0;
        while k < self.layers.len()
            invariant
                k <= self.layers@.len(),
                self.wf(),
                layer_sizes@.len() == k,
                forall|i: int|
                    0 <= i < k ==> #[trigger] layer_sizes@[i] == self.spec_weights().row_sizes()[i],
            decreases self.layers@.len() - k,
        {
            proof {
                self.lemma_layer_shapes(k as int);
            }
            layer_sizes.push(self.layers[k].weight_buffer_size());
            k += 1;
        }
        assert(layer_sizes@ =~= self.spec_weights().row_sizes());
        let _total = self.weight_buffer.buffer_len();
        RowBuffer::new_with_row_sizes(zero, layer_sizes.as_slice())
    }
}

impl<T, A: Copy> Net<T, A> {
    /// Fills the weights of every layer, first layer first, with what
    /// `next_weight` and `next_bias` give.
    pub fn initialize_weights<W: Fn() -> T, B: Fn() -> T>(&mut self, next_weight: &W, next_bias: &B)
        requires
            old(self).wf(),
            next_weight.requires(()),
            next_bias.requires(()),
        ensures
            final(self).wf(),
            final(self).spec_layers() == old(self).spec_layers(),
            final(self).spec_input_size() == old(self).spec_input_size(),
            final(self).spec_output_size() == old(self).spec_output_size(),
            final(self).spec_weights().layout() == old(self).spec_weights().layout(),
            final(self).spec_scratch() == old(self).spec_scratch(),
            forall|i: int|
                0 <= i < final(self).spec_layers().len() ==> (#[trigger] final(self).spec_layers()[i]).initialized(
                    final(self).spec_weights().row(i),
                    *next_weight,
                    *next_bias,
                ),
    {
        let mut k: usize = 0;
        while k < self.layers.len()
            invariant
                k <= self.layers@.len(),
                self.wf(),
                self.layers == old(self).layers,
                self.input_size == old(self).input_size,
                self.output_size == old(self).output_size,
                self.weight_buffer.layout() == old(self).weight_buffer.layout(),
                self.prediction_buffers == old(self).prediction_buffers,
                next_weight.requires(()),
                next_bias.requires(()),
                forall|i: int|
                    0 <= i < k ==> (#[trigger] self.layers@[i]).initialized(
                        self.weight_buffer.row(i),
                        *next_weight,
                        *next_bias,
                    ),
            decreases self.layers@.len() - k,
        {
            let ghost before = self.weight_buffer;
            let ghost mut written: Seq<T> = Seq::empty();
            proof {
                self.lemma_layer_shapes(k as int);
            }
            {
                let row = self.weight_buffer.get_row_mut(k);
                self.layers[k].initialize_weights(row, next_weight, next_bias);
                proof {
                    written = row@;
                }
            }
            proof {
                before.lemma_with_row(&self.weight_buffer, k as int, written);
                assert forall|i: int| 0 <= i < k + 1 implies (#[trigger] self.layers@[i]).initialized(
                    self.weight_buffer.row(i),
                    *next_weight,
                    *next_bias,
                ) by {
                    if i < k {
                        assert(self.weight_buffer.row(i) == before.row(i));
                    }
                }
            }
            k += 1;
        }
    }
}

impl<T: Copy, A: Copy> Net<T, A> {
    /// Scratch buffers for training this network, every element `zero`.
    pub fn get_training_context(&self, zero: T) -> (context: NetTrainingContext<T>)
        requires
            self.wf(),
        ensures
            context.fits(self),
            context.deltas()@ == Seq::new(self.spec_weights()@.len(), |i: int| zero),
    {
        NetTrainingContext::new(self, zero)
    }
}

impl<A: Copy> NetConfig<A> {
    /// Makes the network this configuration describes, with all weights set
    /// to `zero`.
    pub fn create_net<T: Copy>(&self, zero: T) -> (net: Net<T, A>)
        requires
            self@.valid(),
            self@.fits(),
        ensures
            net.wf(),
            net.config() == self@,
            net.spec_weights()@ == Seq::new(total_size(self@.weight_sizes()) as nat, |i: int| zero),
    {
        let mut layers: Vec<NetLayer<A>> = Vec::with_capacity(self.layers.len());
        let mut layer_input_size = self.input_size;
        let mut k: usize = 0;
        while k < self.layers.len()
            invariant
                k <= self.layers@.len(),
                self@.valid(),
                self@.fits(),
                layers@.len() == k,
                layer_input_size == self@.input_size_of(k as int),
                forall|i: int|
                    0 <= i < k ==> layers@[i].spec_input_size() == #[trigger] self@.input_size_of(i),
                forall|i: int| 0 <= i < k ==> (#[trigger] layers@[i]).spec_config() == self.layers@[i],
            decreases self.layers@.len() - k,
        {
            assert(self@.weight_size_of(k as int) <= usize::MAX);
            let layer = self.layers[k].create_layer(layer_input_size);
            layer_input_size = layer.output_size();
            layers.push(layer);
            k += 1;
        }
        assert(Net::<T, A>::shape_of(self.input_size, layers@).layers =~= self@.layers);
        Net::new(self.input_size, layers, zero)
    }
}

/// Whether `f` gives at most one result for each pair of arguments.
pub open spec fn single_valued<A, T, F: Fn(A, T) -> T>(f: F) -> bool {
    forall|a: A, x: T, first: T, second: T|
        #[trigger] f.ensures((a, x), first) && #[trigger] f.ensures((a, x), second) ==> first
            == second
}

impl<T: Copy + core::ops::Add<Output = T> + core::ops::Mul<Output = T>, A: Copy> Net<T, A> {
    /// Whether `output` can be what layer `i` makes of `input` with the
    /// network's weights.
    pub open spec fn layer_relates<F: Fn(A, T) -> T>(
        &self,
        i: int,
        input: Seq<T>,
        output: Seq<T>,
        activation: F,
    ) -> bool {
        self.spec_layers()[i].forward_relates(self.spec_weights().row(i), input, output, activation)
    }

    /// Whether `hidden` can be the values that pass through the network:
    /// its input first, then the output of every layer in order.
    pub open spec fn chain_relates<F: Fn(A, T) -> T>(
        &self,
        hidden: Seq<Seq<T>>,
        activation: F,
    ) -> bool {
        &&& hidden.len() == self.spec_layers().len() + 1
        &&& forall|i: int|
            0 <= i < self.spec_layers().len() ==> #[trigger] self.layer_relates(
                i,
                hidden[i],
                hidden[i + 1],
                activation,
            )
    }

    /// Whether `output` can be the network's prediction for `input`.
    pub open spec fn predicts<F: Fn(A, T) -> T>(
        &self,
        input: Seq<T>,
        output: Seq<T>,
        activation: F,
    ) -> bool {
        exists|hidden: Seq<Seq<T>>|
            #[trigger] self.chain_relates(hidden, activation) && hidden[0] == input
                && hidden.last() == output
    }

    /// Two chains of values through the same network from the same input
    /// agree layer by layer, when the activation function is single-valued.
    pub proof fn lemma_chains_agree<F: Fn(A, T) -> T>(
        &self,
        first: Seq<Seq<T>>,
        second: Seq<Seq<T>>,
        activation: F,
        upto: int,
    )
        requires
            single_valued(activation),
            self.chain_relates(first, activation),
            self.chain_relates(second, activation),
            first[0] == second[0],
            0 <= upto <= self.spec_layers().len(),
        ensures
            first[upto] == second[upto],
        decreases upto,
    {
        if upto > 0 {
            self.lemma_chains_agree(first, second, activation, upto - 1);
            let i = upto - 1;
            assert(self.layer_relates(i, first[i], first[i + 1], activation));
            assert(self.layer_relates(i, second[i], second[i + 1], activation));
            match self.spec_layers()[i] {
                NetLayer::FullyConnected(layer) => {
                    assert forall|node: int| 0 <= node < first[upto].len() implies first[upto][node]
                        == second[upto][node] by {
                        let sum = crate::layer::weighted_sum(
                            self.spec_weights().row(i),
                            first[i],
                            layer.spec_output_size() as int,
                            node,
                            layer.spec_input_size() as int,
                        );
                        assert(activation.ensures(
                            (layer.spec_activation(), sum),
                            first[upto][node],
                        ));
                        assert(activation.ensures(
                            (layer.spec_activation(), sum),
                            second[upto][node],
                        ));
                    }
                    assert(first[upto] =~= second[upto]);
                },
            }
        }
    }

    /// A prediction is determined by the weights and the input: with a
    /// single-valued activation function, the same network gives the same
    /// output for the same input.
    pub proof fn lemma_predict_deterministic<F: Fn(A, T) -> T>(
        &self,
        input: Seq<T>,
        first: Seq<T>,
        second: Seq<T>,
        activation: F,
    )
        requires
            single_valued(activation),
            self.predicts(input, first, activation),
            self.predicts(input, second, activation),
        ensures
            first == second,
    {
        let first_chain = choose|hidden: Seq<Seq<T>>|
            #[trigger] self.chain_relates(hidden, activation) && hidden[0] == input
                && hidden.last() == first;
        let second_chain = choose|hidden: Seq<Seq<T>>|
            #[trigger] self.chain_relates(hidden, activation) && hidden[0] == input
                && hidden.last() == second;
        self.lemma_chains_agree(
            first_chain,
            second_chain,
            activation,
            self.spec_layers().len() as int,
        );
    }

    /// Runs layer `row_index` from one scratch row into the other: it reads
    /// its input from the start of row `source_index` and writes its output
    /// to the start of row `target_index`.
    fn pass_through<F: Fn(A, T) -> T>(
        &mut self,
        row_index: usize,
        source_index: usize,
        target_index: usize,
        activation: &F,
    )
        requires
            old(self).wf(),
            row_index < old(self).spec_layers().len(),
            source_index < 2,
            target_index < 2,
            source_index != target_index,
            old(self).spec_layers()[row_index as int].spec_input_size() <= old(self).spec_scratch().row_sizes()[source_index as int],
            add_is_total::<T>(),
            mul_is_total::<T>(),
            accepts_all(*activation),
        ensures
            final(self).wf(),
            final(self).spec_layers() == old(self).spec_layers(),
            final(self).spec_weights() == old(self).spec_weights(),
            final(self).spec_input_size() == old(self).spec_input_size(),
            final(self).spec_output_size() == old(self).spec_output_size(),
            final(self).spec_scratch().layout() == old(self).spec_scratch().layout(),
            T::obeys_add_spec() && T::obeys_mul_spec() ==> old(self).layer_relates(
                row_index as int,
                old(self).spec_scratch().row(source_index as int).subrange(
                    0,
                    old(self).spec_layers()[row_index as int].spec_input_size() as int,
                ),
                final(self).spec_scratch().row(target_index as int).subrange(
                    0,
                    old(self).spec_layers()[row_index as int].spec_output_size() as int,
                ),
                *activation,
            ),
    {
        let ghost before = self.prediction_buffers;
        let ghost mut written: Seq<T> = Seq::empty();
        let ghost mut read: Seq<T> = Seq::empty();
        let ghost mut output: Seq<T> = Seq::empty();
        proof {
            self.lemma_layer_shapes(row_index as int);
            before.lemma_row_in_bounds(source_index as int);
            before.lemma_row_in_bounds(target_index as int);
        }
        let in_size = self.layers[row_index].input_size();
        let out_size = self.layers[row_index].output_size();
        {
            let (source_row, target_row) = self.prediction_buffers.split_rows(
                source_index,
                target_index,
            );
            let (source, unused) = source_row.split_at_mut(in_size);
            let (target, rest) = target_row.split_at_mut(out_size);
            self.layers[row_index].forward_pass(
                self.weight_buffer.get_row(row_index),
                source,
                target,
                activation,
            );
            proof {
                output = target@;
                written = target@ + rest@;
                read = source@ + unused@;
            }
        }
        proof {
            assert(read =~= before.row(source_index as int));
            before.lemma_with_rows(
                &self.prediction_buffers,
                source_index as int,
                read,
                target_index as int,
                written,
            );
            assert(self.prediction_buffers.row(target_index as int).subrange(0, out_size as int)
                =~= output);
        }
    }

    /// Runs the network on `input` and writes its output to `output`. The
    /// values between the layers pass through the two scratch rows in turn.
    fn predict_with<F: Fn(A, T) -> T>(&mut self, input: &[T], output: &mut [T], activation: &F)
        requires
            old(self).wf(),
            old(self).spec_layers().len() > 1,
            input@.len() == old(self).spec_input_size(),
            old(output)@.len() == old(self).spec_output_size(),
            add_is_total::<T>(),
            mul_is_total::<T>(),
            accepts_all(*activation),
        ensures
            final(self).wf(),
            final(self).spec_layers() == old(self).spec_layers(),
            final(self).spec_weights() == old(self).spec_weights(),
            final(self).spec_input_size() == old(self).spec_input_size(),
            final(self).spec_output_size() == old(self).spec_output_size(),
            final(output)@.len() == old(output)@.len(),
            T::obeys_add_spec() && T::obeys_mul_spec() ==> old(self).predicts(
                input@,
                final(output)@,
                *activation,
            ),
    {
        let num_layers = self.layers.len();
        let ghost obeys = T::obeys_add_spec() && T::obeys_mul_spec();
        let ghost mut hidden: Seq<Seq<T>> = seq![input@];
        let ghost mut written: Seq<T> = Seq::empty();
        let ghost before = self.prediction_buffers;
        proof {
            self.lemma_layer_shapes(0);
            before.lemma_row_in_bounds(0);
        }
        let first_size = self.layers[0].output_size();
        {
            let row = self.prediction_buffers.get_row_mut(0);
            let (target, rest) = row.split_at_mut(first_size);
            self.layers[0].forward_pass(self.weight_buffer.get_row(0), input, target, activation);
            proof {
                hidden = hidden.push(target@);
                written = target@ + rest@;
            }
        }
        proof {
            before.lemma_with_row(&self.prediction_buffers, 0, written);
            assert(self.prediction_buffers.row(0).subrange(0, first_size as int) =~= hidden[1]);
        }
        let mut row_index: usize = 1;
        while row_index < num_layers - 1
            invariant
                1 <= row_index <= num_layers - 1,
                num_layers == self.spec_layers().len(),
                old(self).wf(),
                self.wf(),
                self.spec_layers() == old(self).spec_layers(),
                self.spec_weights() == old(self).spec_weights(),
                self.spec_input_size() == old(self).spec_input_size(),
                self.spec_output_size() == old(self).spec_output_size(),
                add_is_total::<T>(),
                mul_is_total::<T>(),
                accepts_all(*activation),
                obeys == (T::obeys_add_spec() && T::obeys_mul_spec()),
                hidden.len() == row_index + 1,
                hidden[0] == input@,
                obeys ==> forall|i: int|
                    0 <= i < row_index ==> #[trigger] old(self).layer_relates(
                        i,
                        hidden[i],
                        hidden[i + 1],
                        *activation,
                    ),
                self.spec_scratch().row((row_index + 1) % 2).subrange(
                    0,
                    self.spec_layers()[row_index - 1].spec_output_size() as int,
                ) == hidden[row_index as int],
            decreases num_layers - row_index,
        {
            let source_index = (row_index + 1) % 2;
            let target_index = row_index % 2;
            proof {
                self.lemma_layer_shapes(row_index as int);
                self.lemma_layer_shapes(row_index - 1);
            }
            let ghost earlier = hidden;
            self.pass_through(row_index, source_index, target_index, activation);
            proof {
                hidden = earlier.push(
                    self.spec_scratch().row(target_index as int).subrange(
                        0,
                        self.spec_layers()[row_index as int].spec_output_size() as int,
                    ),
                );
                assert forall|i: int| 0 <= i < row_index + 1 && obeys implies #[trigger] old(self).layer_relates(i, hidden[i], hidden[i + 1], *activation) by {
                    if i < row_index {
                        assert(old(self).layer_relates(i, earlier[i], earlier[i + 1], *activation));
                    }
                }
            }
            row_index += 1;
        }
        let last = num_layers - 1;
        let source_index = num_layers % 2;
        proof {
            self.lemma_layer_shapes(last as int);
            self.lemma_layer_shapes(last - 1);
            self.prediction_buffers.lemma_row_in_bounds(source_index as int);
        }
        let in_size = self.layers[last].input_size();
        let source_row = self.prediction_buffers.get_row(source_index);
        let source = slice_subrange(source_row, 0, in_size);
        self.layers[last].forward_pass(self.weight_buffer.get_row(last), source, output, activation);
        proof {
            hidden = hidden.push(output@);
            if obeys {
                assert(old(self).layer_relates(
                    last as int,
                    hidden[last as int],
                    hidden[last + 1],
                    *activation,
                ));
                assert(old(self).chain_relates(hidden, *activation));
                assert(hidden.last() == output@);
            }
        }
    }

    /// The network's output for `input`. The weights are not changed.
    pub fn predict<F: Fn(A, T) -> T>(&mut self, input: &[T], zero: T, activation: &F) -> (output:
        Vec<T>)
        requires
            old(self).wf(),
            old(self).spec_layers().len() > 1,
            input@.len() == old(self).spec_input_size(),
            add_is_total::<T>(),
            mul_is_total::<T>(),
            accepts_all(*activation),
        ensures
            final(self).wf(),
            final(self).spec_layers() == old(self).spec_layers(),
            final(self).spec_weights() == old(self).spec_weights(),
            final(self).spec_input_size() == old(self).spec_input_size(),
            final(self).spec_output_size() == old(self).spec_output_size(),
            output@.len() == old(self).spec_output_size(),
            T::obeys_add_spec() && T::obeys_mul_spec() ==> old(self).predicts(
                input@,
                output@,
                *activation,
            ),
    {
        let mut output: Vec<T> = Vec::with_capacity(self.output_size);
        let mut k: usize = 0;
        while k < self.output_size
            invariant
                k <= self.output_size,
                output@.len() == k,
            decreases self.output_size - k,
        {
            output.push(zero);
            k += 1;
        }
        self.predict_with(input, output.as_mut_slice(), activation);
        output
    }
}

} // verus!
