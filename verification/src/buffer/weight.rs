//! A copy of a network's weights, kept outside the network.

use vstd::prelude::*;
use vstd::std_specs::ops::AddSpec;
use vstd::std_specs::ops::MulSpec;
use vstd::std_specs::ops::SubSpec;
use crate::buffer::row::zip_add;
use crate::buffer::row::zip_add_scaled;
use crate::buffer::row::zip_sub;
use crate::buffer::row::RowBuffer;
use crate::net::Net;
use crate::train::context::same_shape;

verus! {

/// An arena shaped like the weights of a network: room for a snapshot of
/// the weights, or for something to add to them.
pub struct WeightBuffer<T> {
    buffer: RowBuffer<T>,
}

impl<T> View for WeightBuffer<T> {
    type V = Seq<T>;

    /// The buffer's contents, row after row.
    open spec fn view(&self) -> Seq<T> {
        self.arena()@
    }
}

impl<T> WeightBuffer<T> {
    /// The arena that holds the contents.
    pub closed spec fn arena(&self) -> RowBuffer<T> {
        self.buffer
    }

    /// Whether the buffer is shaped like the weights of `net`.
    pub open spec fn fits<A: Copy>(&self, net: &Net<T, A>) -> bool {
        &&& self.arena().wf()
        &&& self.arena().row_sizes() == net.spec_weights().row_sizes()
    }

    /// The arena for writing.
    pub fn get_buffer_mut(&mut self) -> (arena: &mut RowBuffer<T>)
        ensures
            *arena == old(self).arena(),
            final(self).arena() == *final(arena),
    {
        &mut self.buffer
    }
}

impl<T: Copy> WeightBuffer<T> {
    /// A buffer shaped like the weights of `net`, every element `zero`.
    pub fn new_for_net<A: Copy>(net: &Net<T, A>, zero: T) -> (weights: Self)
        requires
            net.wf(),
        ensures
            weights.fits(net),
            weights@ == Seq::new(net.spec_weights()@.len(), |i: int| zero),
    {
        WeightBuffer { buffer: net.new_zeroed_weight_buffer(zero) }
    }

    /// Copies the weights of `net` into this buffer.
    pub fn extract_from_net<A: Copy>(&mut self, net: &Net<T, A>)
        requires
            old(self)@.len() == net.spec_weights()@.len(),
        ensures
            final(self)@ == net.spec_weights()@,
            final(self).arena().layout() == old(self).arena().layout(),
            old(self).fits(net) ==> final(self).fits(net),
    {
        net.get_weights().copy_into(&mut self.buffer);
    }

    /// Copies this buffer into the weights of `net`.
    pub fn load_into_net<A: Copy>(&self, net: &mut Net<T, A>)
        requires
            self@.len() == old(net).spec_weights()@.len(),
        ensures
            final(net).spec_weights()@ == self@,
            same_shape(old(net), final(net)),
            final(net).spec_scratch() == old(net).spec_scratch(),
            old(net).wf() ==> final(net).wf(),
    {
        self.buffer.copy_into(net.get_weights_mut());
    }

    /// Copies this buffer into another one of the same length.
    pub fn copy_into(&self, other: &mut WeightBuffer<T>)
        requires
            self@.len() == old(other)@.len(),
        ensures
            final(other)@ == self@,
            final(other).arena().layout() == old(other).arena().layout(),
    {
        self.buffer.copy_into(&mut other.buffer);
    }
}

impl<T: Copy + core::ops::Add<Output = T>> WeightBuffer<T> {
    /// Adds this buffer to the weights of `net`, element by element.
    pub fn add_to_net<A: Copy>(&self, net: &mut Net<T, A>)
        requires
            self@.len() == old(net).spec_weights()@.len(),
            forall|i: int|
                0 <= i < self@.len() ==> #[trigger] old(net).spec_weights()@[i].add_req(self@[i]),
        ensures
            same_shape(old(net), final(net)),
            final(net).spec_scratch() == old(net).spec_scratch(),
            old(net).wf() ==> final(net).wf(),
            T::obeys_add_spec() ==> final(net).spec_weights()@ == zip_add(
                old(net).spec_weights()@,
                self@,
            ),
    {
        net.get_weights_mut().add(&self.buffer);
    }

    /// Adds another buffer to this one, element by element.
    pub fn add(&mut self, other: &WeightBuffer<T>)
        requires
            old(self)@.len() == other@.len(),
            forall|i: int| 0 <= i < other@.len() ==> #[trigger] old(self)@[i].add_req(other@[i]),
        ensures
            final(self).arena().layout() == old(self).arena().layout(),
            final(self)@.len() == old(self)@.len(),
            T::obeys_add_spec() ==> final(self)@ == zip_add(old(self)@, other@),
    {
        self.buffer.add(&other.buffer);
    }
}

impl<T: Copy + core::ops::Sub<Output = T>> WeightBuffer<T> {
    /// Subtracts another buffer from this one, element by element.
    pub fn subtract(&mut self, subtract: &WeightBuffer<T>)
        requires
            old(self)@.len() == subtract@.len(),
            forall|i: int|
                0 <= i < subtract@.len() ==> #[trigger] old(self)@[i].sub_req(subtract@[i]),
        ensures
            final(self).arena().layout() == old(self).arena().layout(),
            final(self)@.len() == old(self)@.len(),
            T::obeys_sub_spec() ==> final(self)@ == zip_sub(old(self)@, subtract@),
    {
        self.buffer.subtract(&subtract.buffer);
    }
}

impl<T: Copy + core::ops::Add<Output = T> + core::ops::Mul<Output = T>> WeightBuffer<T> {
    /// Adds another buffer, scaled by `multiplier`, to this one.
    pub fn add_with_multiplier(&mut self, other: &WeightBuffer<T>, multiplier: T)
        requires
            old(self)@.len() == other@.len(),
            forall|i: int| 0 <= i < other@.len() ==> #[trigger] other@[i].mul_req(multiplier),
            forall|i: int, product: T|
                0 <= i < other@.len() && RowBuffer::<T>::may_be_product(
                    other@[i],
                    multiplier,
                    product,
                ) ==> #[trigger] old(self)@[i].add_req(product),
        ensures
            final(self).arena().layout() == old(self).arena().layout(),
            final(self)@.len() == old(self)@.len(),
            T::obeys_add_spec() && T::obeys_mul_spec() ==> final(self)@ == zip_add_scaled(
                old(self)@,
                other@,
                multiplier,
            ),
    {
        self.buffer.add_with_multiplier(&other.buffer, multiplier);
    }
}

/// Storing the weights of a network and loading them again leaves the
/// network as it was: the same weights in the same layout, and so the same
/// predictions.
pub proof fn lemma_weight_round_trip<T, A: Copy>(
    before: Net<T, A>,
    stored: WeightBuffer<T>,
    after: Net<T, A>,
)
    requires
        stored@ == before.spec_weights()@,
        after.spec_weights()@ == stored@,
        same_shape(&before, &after),
    ensures
        after.spec_weights()@ == before.spec_weights()@,
        after.spec_layers() == before.spec_layers(),
        forall|i: int| #[trigger] after.spec_weights().row(i) == before.spec_weights().row(i),
{
    assert forall|i: int| #[trigger] after.spec_weights().row(i) == before.spec_weights().row(
        i,
    ) by {
        assert(after.spec_weights().row_sizes() =~= before.spec_weights().row_sizes());
    }
}

/// A network whose weights were stored and loaded again predicts what it
/// predicted before: whatever can be its output for an input afterwards
/// could be its output before, and the other way round.
pub proof fn lemma_round_trip_keeps_predictions<T, A, F>(
    before: Net<T, A>,
    stored: WeightBuffer<T>,
    after: Net<T, A>,
    input: Seq<T>,
    output: Seq<T>,
    activation: F,
) where
    T: Copy + core::ops::Add<Output = T> + core::ops::Mul<Output = T>,
    A: Copy,
    F: Fn(A, T) -> T,

    requires
        stored@ == before.spec_weights()@,
        after.spec_weights()@ == stored@,
        same_shape(&before, &after),
    ensures
        after.predicts(input, output, activation) == before.predicts(input, output, activation),
{
    lemma_weight_round_trip(before, stored, after);
    assert forall|hidden: Seq<Seq<T>>|
        after.chain_relates(hidden, activation) == before.chain_relates(
            hidden,
            activation,
        ) by {
        if after.chain_relates(hidden, activation) {
            assert forall|i: int|
                0 <= i < before.spec_layers().len() implies #[trigger] before.layer_relates(
                i,
                hidden[i],
                hidden[i + 1],
                activation,
            ) by {
                assert(after.layer_relates(i, hidden[i], hidden[i + 1], activation));
                assert(after.spec_weights().row(i) == before.spec_weights().row(i));
            }
        }
        if before.chain_relates(hidden, activation) {
            assert forall|i: int|
                0 <= i < after.spec_layers().len() implies #[trigger] after.layer_relates(
                i,
                hidden[i],
                hidden[i + 1],
                activation,
            ) by {
                assert(before.layer_relates(i, hidden[i], hidden[i + 1], activation));
                assert(after.spec_weights().row(i) == before.spec_weights().row(i));
            }
        }
    }
    if after.predicts(input, output, activation) {
        let hidden = choose|hidden: Seq<Seq<T>>|
            #[trigger] after.chain_relates(hidden, activation) && hidden[0] == input
                && hidden.last() == output;
        assert(before.chain_relates(hidden, activation));
    }
    if before.predicts(input, output, activation) {
        let hidden = choose|hidden: Seq<Seq<T>>|
            #[trigger] before.chain_relates(hidden, activation) && hidden[0] == input
                && hidden.last() == output;
        assert(after.chain_relates(hidden, activation));
    }
}

} // verus!
