//! How many samples make up a mini-batch.

use vstd::prelude::*;

verus! {

/// The size of the mini-batch with a given index. `S` is the type of the
/// growth rate of a linearly growing size.
#[derive(Clone, Copy, Debug)]
pub enum MiniBatchSize<S> {
    /// The whole data set is one mini-batch.
    Full,
    /// Always the same number of samples; zero stands for the whole data
    /// set.
    Constant(u32),
    /// `initial` samples at first, growing with the batch index at rate
    /// `slope`, but never more than `max`.
    Linear { initial: u32, slope: S, max: u32 },
}

/// The size of a linearly growing mini-batch: `initial + growth`, capped at
/// `max`.
pub open spec fn linear_size(initial: u32, growth: u32, max: u32) -> int {
    if initial + growth > max {
        max as int
    } else {
        initial + growth
    }
}

/// `Some(size)` for a positive size, `None` (the whole data set) for zero.
pub open spec fn bounded_batch(size: int) -> Option<u32> {
    if size > 0 {
        Some(size as u32)
    } else {
        None
    }
}

impl<S: Copy> MiniBatchSize<S> {
    /// The number of samples in mini-batch `batch_num`, or `None` when the
    /// mini-batch is the whole data set. For a linearly growing size,
    /// `growth` is asked how many samples the rate `slope` adds by batch
    /// `batch_num`.
    pub fn get_mini_batch_size<G: FnOnce(S, usize) -> u32>(&self, batch_num: usize, growth: G) -> (size:
        Option<u32>)
        requires
            *self matches MiniBatchSize::Linear { slope, .. } ==> growth.requires((slope, batch_num)),
        ensures
            match *self {
                MiniBatchSize::Full => size is None,
                MiniBatchSize::Constant(val) => size == bounded_batch(val as int),
                MiniBatchSize::Linear { initial, slope, max } => exists|grown: u32|
                    #[trigger] growth.ensures((slope, batch_num), grown) && size == bounded_batch(
                        linear_size(initial, grown, max),
                    ),
            },
            size matches Some(n) ==> n > 0,
    {
        match *self {
            MiniBatchSize::Full => None,
            MiniBatchSize::Constant(val) => if val > 0 {
                Some(val)
            } else {
                None
            },
            MiniBatchSize::Linear { initial, slope, max } => {
                let grown: u32 = growth(slope, batch_num);
                let val: u32 = if grown > max || initial > max - grown {
                    max
                } else {
                    initial + grown
                };
                if val > 0 {
                    Some(val)
                } else {
                    None
                }
            },
        }
    }
}

} // verus!
