//! How the error of one output value is measured.

use vstd::prelude::*;
use vstd::std_specs::ops::SubSpec;

verus! {

/// The error measure applied to every output of the network.
#[derive(Clone, Copy, Debug)]
pub enum ErrorFn {
    /// Half the squared difference between the expected and the actual
    /// value.
    SquaredError,
}

impl ErrorFn {
    /// The derivative of the error with respect to the actual value. For
    /// the squared error that is `actual - expected`.
    pub fn get_error_derivative<T: Copy + core::ops::Sub<Output = T>>(
        &self,
        expected: T,
        actual: T,
    ) -> (derivative: T)
        requires
            actual.sub_req(expected),
        ensures
            T::obeys_sub_spec() ==> derivative == actual.sub_spec(expected),
    {
        match self {
            ErrorFn::SquaredError => actual - expected,
        }
    }
}

} // verus!
