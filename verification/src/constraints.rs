//! The fixed constraint quotient polynomials of this statement, and their
//! random linear combination into the composition polynomial.
use vstd::prelude::*;

use crate::algebra::in_field;
use crate::field::{seq_vals, BaseField};
use crate::poly::{padd, pscale, Polynomial};

verus! {

/// The coefficients of the boundary quotient `(t(x) - 3) / (x - 1)`.
pub open spec fn boundary_vals() -> Seq<int> {
    seq![14int, 15int, 13int]
}

/// The coefficients of the transition quotient
/// `(t(gx) - t(x)^2) / ((x - 1)(x - 13)(x - 16))`.
pub open spec fn transition_vals() -> Seq<int> {
    seq![16int, 9int, 12int, 1int]
}

/// Polynomial representation of our boundary constraint that the first
/// element of the trace is 3; that is, t(1) = 3. This gets converted into a
/// statement of the form "<some expression agreed to by the prover and
/// verifier> is a polynomial". We prove that by constructing the
/// polynomial, and proving that we have it using FRI.
///
/// The coefficients were derived by hand for this specific trace; the test
/// suite checks them against the quotient identity at a point outside the
/// trace domain.
pub fn boundary_constraint() -> (r: Polynomial)
    ensures
        r@ == boundary_vals(),
        r.wf(),
{
    let mut coefficients: Vec<BaseField> = Vec::new();
    coefficients.push(BaseField::new(14));
    coefficients.push(BaseField::new(15));
    coefficients.push(BaseField::new(13));
    proof {
        assert(seq_vals(coefficients@) =~= boundary_vals());
    }
    Polynomial::new(coefficients)
}

/// This polynomial encodes the transition constraint that for the first 3
/// elements `x` of the trace, the next is equal to `x^2`. Hand-derived like
/// the boundary quotient, and checked by the same tests.
pub fn transition_constraint() -> (r: Polynomial)
    ensures
        r@ == transition_vals(),
        r.wf(),
{
    let mut coefficients: Vec<BaseField> = Vec::new();
    coefficients.push(BaseField::new(16));
    coefficients.push(BaseField::new(9));
    coefficients.push(BaseField::new(12));
    coefficients.push(BaseField::new(1));
    proof {
        assert(seq_vals(coefficients@) =~= transition_vals());
    }
    Polynomial::new(coefficients)
}

/// The composition polynomial: a random linear combination of the boundary
/// and transition quotients, with the coefficients drawn from the channel.
pub fn composition_polynomial(alpha_0: BaseField, alpha_1: BaseField) -> (r: Polynomial)
    requires
        in_field(alpha_0@),
        in_field(alpha_1@),
    ensures
        r@ == padd(pscale(boundary_vals(), alpha_0@), pscale(transition_vals(), alpha_1@)),
        r.wf(),
        r@.len() == 4,
{
    let p0 = boundary_constraint().scalar_mul(alpha_0);
    let p1 = transition_constraint().scalar_mul(alpha_1);
    p0.add(&p1)
}

} // verus!
