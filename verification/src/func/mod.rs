//! The pluggable decisions of a training run: when to stop, how large a
//! mini-batch is, and how an output's error is measured.

pub mod completion;
pub mod error;
pub mod minibatch;

pub use self::completion::CompletionFn;
pub use self::error::ErrorFn;
pub use self::minibatch::MiniBatchSize;
