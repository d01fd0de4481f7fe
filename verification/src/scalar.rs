//! What the numeric kernels ask of their scalar type, and a scalar that
//! gives it: the integers modulo 2^64.
//!
//! The kernels are generic over the scalar and use the operators of
//! `core::ops`. They ask that those operators accept every pair of values,
//! as the operators of floating-point numbers and of wrapping or saturating
//! fixed-point numbers do. Where an operator also obeys its specification,
//! the kernels' results are the ones their spec functions describe.

use vstd::prelude::*;
use vstd::std_specs::ops::AddSpec;
use vstd::std_specs::ops::MulSpec;
use vstd::std_specs::ops::NegSpec;
use vstd::std_specs::ops::SubSpec;
use crate::buffer::row::lemma_add_then_subtract_restores;
use crate::buffer::row::zip_add;
use crate::buffer::row::zip_sub;

verus! {

/// `a + b` is defined for all `a` and `b`.
pub open spec fn add_is_total<T: core::ops::Add<Output = T>>() -> bool {
    forall|a: T, b: T| #[trigger] a.add_req(b)
}

/// `a - b` is defined for all `a` and `b`.
pub open spec fn sub_is_total<T: core::ops::Sub<Output = T>>() -> bool {
    forall|a: T, b: T| #[trigger] a.sub_req(b)
}

/// `a * b` is defined for all `a` and `b`.
pub open spec fn mul_is_total<T: core::ops::Mul<Output = T>>() -> bool {
    forall|a: T, b: T| #[trigger] a.mul_req(b)
}

/// `-a` is defined for all `a`.
pub open spec fn neg_is_total<T: core::ops::Neg<Output = T>>() -> bool {
    forall|a: T| #[trigger] a.neg_req()
}

/// `f` can be called with every pair of arguments.
pub open spec fn accepts_all<A, T, F: Fn(A, T) -> T>(f: F) -> bool {
    forall|a: A, x: T| #[trigger] f.requires((a, x))
}

/// An integer modulo 2^64, held as the representative between -2^63 and
/// 2^63 - 1. Sums, differences, products and negations wrap around, so that
/// every operation is defined and exact: a scalar for networks whose
/// results must be the same on every machine.
#[derive(Clone, Copy, Debug, PartialEq, Eq)]
pub struct Modular(pub i64);

impl core::ops::Add for Modular {
    type Output = Modular;

    fn add(self, rhs: Modular) -> (sum: Modular) {
        Modular(self.0.wrapping_add(rhs.0))
    }
}

impl vstd::std_specs::ops::AddSpecImpl for Modular {
    open spec fn obeys_add_spec() -> bool {
        true
    }

    open spec fn add_req(self, rhs: Modular) -> bool {
        true
    }

    open spec fn add_spec(self, rhs: Modular) -> Modular {
        Modular(self.0.wrapping_add(rhs.0))
    }
}

impl core::ops::Sub for Modular {
    type Output = Modular;

    fn sub(self, rhs: Modular) -> (difference: Modular) {
        Modular(self.0.wrapping_sub(rhs.0))
    }
}

impl vstd::std_specs::ops::SubSpecImpl for Modular {
    open spec fn obeys_sub_spec() -> bool {
        true
    }

    open spec fn sub_req(self, rhs: Modular) -> bool {
        true
    }

    open spec fn sub_spec(self, rhs: Modular) -> Modular {
        Modular(self.0.wrapping_sub(rhs.0))
    }
}

impl core::ops::Mul for Modular {
    type Output = Modular;

    fn mul(self, rhs: Modular) -> (product: Modular) {
        Modular(self.0.wrapping_mul(rhs.0))
    }
}

impl vstd::std_specs::ops::MulSpecImpl for Modular {
    open spec fn obeys_mul_spec() -> bool {
        true
    }

    open spec fn mul_req(self, rhs: Modular) -> bool {
        true
    }

    open spec fn mul_spec(self, rhs: Modular) -> Modular {
        Modular(self.0.wrapping_mul(rhs.0))
    }
}

impl core::ops::Neg for Modular {
    type Output = Modular;

    fn neg(self) -> (negated: Modular) {
        Modular(0i64.wrapping_sub(self.0))
    }
}

impl vstd::std_specs::ops::NegSpecImpl for Modular {
    open spec fn obeys_neg_spec() -> bool {
        true
    }

    open spec fn neg_req(self) -> bool {
        true
    }

    open spec fn neg_spec(self) -> Modular {
        Modular(0i64.wrapping_sub(self.0))
    }
}

/// The integers modulo 2^64 give the kernels what they ask for: every
/// operation is defined and obeys its specification.
pub proof fn lemma_modular_arithmetic()
    ensures
        add_is_total::<Modular>(),
        sub_is_total::<Modular>(),
        mul_is_total::<Modular>(),
        neg_is_total::<Modular>(),
        Modular::obeys_add_spec(),
        Modular::obeys_sub_spec(),
        Modular::obeys_mul_spec(),
        Modular::obeys_neg_spec(),
{
}

/// Modulo 2^64, subtracting what was added gives back what one started
/// from: for a single number, and so for arenas of them, element by
/// element.
pub proof fn lemma_modular_sub_undoes_add(a: Seq<Modular>, b: Seq<Modular>)
    requires
        a.len() == b.len(),
    ensures
        forall|x: Modular, y: Modular| #[trigger] x.add_spec(y).sub_spec(y) == x,
        zip_sub(zip_add(a, b), b) == a,
{
    assert forall|x: Modular, y: Modular| #[trigger] x.add_spec(y).sub_spec(y) == x by {}
    lemma_add_then_subtract_restores(a, b);
}

} // verus!
