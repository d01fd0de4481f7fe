//! Feed-forward networks trained by back-propagation.
//!
//! The crate holds the weights of a network in one contiguous row arena,
//! runs the forward and backward kernels of its layers, cuts data sets into
//! partitions, and keeps the books of the single-threaded trainer and of
//! the partition-parallel trainer whose workers share their weights.
//!
//! The kernels are generic over the scalar type: they use the operators of
//! `core::ops` and are handed the activation and error functions as
//! closures. The kernels never index out of bounds, whatever the scalar
//! type; where the scalar's arithmetic obeys its specification, their
//! results are the ones that the spec functions next to them describe.
//!
//! Everything here is verified, but for four small functions that call
//! into the standard library or into another crate. Each of them is marked
//! `external_body`, and its documentation names the function it calls and
//! says what is taken on trust.

pub mod buffer;
pub mod data;
pub mod func;
pub mod layer;
pub mod net;
pub mod scalar;
pub mod stats;
pub mod train;
pub mod utils;
