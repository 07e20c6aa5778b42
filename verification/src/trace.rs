//! The execution trace of the statement being proved: a start value of 3,
//! squared three times.
use vstd::prelude::*;

use crate::algebra::{fmul, in_field};
use crate::field::{all_in_field, seq_vals, trace_domain_vals, BaseField};
use crate::poly::{eval_poly, lemma_eval_len4, wf_coeffs};

verus! {

/// The trace values: `[3, 3^2, 3^4, 3^8]` in GF(17).
pub open spec fn trace_vals() -> Seq<int> {
    seq![3int, 9int, 13int, 16int]
}

/// The coefficients of the polynomial interpolating the trace over the
/// trace domain.
pub open spec fn trace_poly_vals() -> Seq<int> {
    seq![6int, 16int, 2int, 13int]
}

/// The interpolation conditions pin the trace polynomial: any canonical
/// coefficient sequence of length 4 that takes the trace values on the
/// four (distinct) trace-domain points is exactly `[6, 16, 2, 13]`.
#[verifier::rlimit(100)]
pub proof fn lemma_trace_poly_unique(tp: Seq<int>)
    requires
        wf_coeffs(tp),
        tp.len() == 4,
        forall|j: int| 0 <= j < 4 ==> eval_poly(tp, trace_domain_vals()[j]) == trace_vals()[j],
    ensures
        tp == trace_poly_vals(),
{
    let t0 = tp[0];
    let t1 = tp[1];
    let t2 = tp[2];
    let t3 = tp[3];
    assert(in_field(t0) && in_field(t1) && in_field(t2) && in_field(t3));
    lemma_eval_len4(tp, 1);
    lemma_eval_len4(tp, 13);
    lemma_eval_len4(tp, 16);
    lemma_eval_len4(tp, 4);
    assert(trace_domain_vals()[0] == 1 && trace_domain_vals()[1] == 13 && trace_domain_vals()[2]
        == 16 && trace_domain_vals()[3] == 4);
    assert(eval_poly(tp, trace_domain_vals()[0]) == trace_vals()[0]);
    assert(eval_poly(tp, trace_domain_vals()[1]) == trace_vals()[1]);
    assert(eval_poly(tp, trace_domain_vals()[2]) == trace_vals()[2]);
    assert(eval_poly(tp, trace_domain_vals()[3]) == trace_vals()[3]);
    assert(eval_poly(tp, 1) == 3);
    assert(eval_poly(tp, 13) == 9);
    assert(eval_poly(tp, 16) == 13);
    assert(eval_poly(tp, 4) == 16);
    assert(1 * 1 == 1 && 1 * 1 * 1 == 1) by (nonlinear_arith);
    assert(13 * 13 == 169 && 13 * 13 * 13 == 2197) by (nonlinear_arith);
    assert(16 * 16 == 256 && 16 * 16 * 16 == 4096) by (nonlinear_arith);
    assert(4 * 4 == 16 && 4 * 4 * 4 == 64) by (nonlinear_arith);
    let n1 = t0 + 1 * t1 + 1 * t2 + 1 * t3;
    let n2 = t0 + 13 * t1 + 169 * t2 + 2197 * t3;
    let n3 = t0 + 16 * t1 + 256 * t2 + 4096 * t3;
    let n4 = t0 + 4 * t1 + 16 * t2 + 64 * t3;
    assert(n1 % 17 == 3);
    assert(n2 % 17 == 9);
    assert(n3 % 17 == 13);
    assert(n4 % 17 == 16);
    vstd::arithmetic::div_mod::lemma_fundamental_div_mod(n1, 17);
    vstd::arithmetic::div_mod::lemma_fundamental_div_mod(n2, 17);
    vstd::arithmetic::div_mod::lemma_fundamental_div_mod(n3, 17);
    vstd::arithmetic::div_mod::lemma_fundamental_div_mod(n4, 17);
    assert(n1 == 17 * (n1 / 17) + 3);
    assert(n2 == 17 * (n2 / 17) + 9);
    assert(n3 == 17 * (n3 / 17) + 13);
    assert(n4 == 17 * (n4 / 17) + 16);

    // eliminate with the inverse Vandermonde rows: each row combination
    // leaves one coefficient, up to a multiple of 17
    assert(13 * n1 + 13 * n2 + 13 * n3 + 13 * n4 == t0 + 17 * (3 * t0 + 26 * t1 + 338 * t2 + 4862
        * t3));
    assert(13 * n1 + 13 * n2 + 13 * n3 + 13 * n4 == 17 * (13 * (n1 / 17) + 13 * (n2 / 17) + 13 * (
    n3 / 17) + 13 * (n4 / 17)) + 533);
    assert(t0 == 6);

    assert(13 * n1 + 1 * n2 + 4 * n3 + 16 * n4 == t1 + 17 * (2 * t0 + 9 * t1 + 86 * t2 + 1154
        * t3));
    assert(13 * n1 + 1 * n2 + 4 * n3 + 16 * n4 == 17 * (13 * (n1 / 17) + 1 * (n2 / 17) + 4 * (n3
        / 17) + 16 * (n4 / 17)) + 356);
    assert(t1 == 16);

    assert(13 * n1 + 4 * n2 + 13 * n3 + 4 * n4 == t2 + 17 * (2 * t0 + 17 * t1 + 240 * t2 + 3665
        * t3));
    assert(13 * n1 + 4 * n2 + 13 * n3 + 4 * n4 == 17 * (13 * (n1 / 17) + 4 * (n2 / 17) + 13 * (n3
        / 17) + 4 * (n4 / 17)) + 308);
    assert(t2 == 2);

    assert(13 * n1 + 16 * n2 + 4 * n3 + 1 * n4 == t3 + 17 * (2 * t0 + 17 * t1 + 221 * t2 + 3036
        * t3));
    assert(13 * n1 + 16 * n2 + 4 * n3 + 1 * n4 == 17 * (13 * (n1 / 17) + 16 * (n2 / 17) + 4 * (n3
        / 17) + 1 * (n4 / 17)) + 251);
    assert(t3 == 13);

    assert(tp =~= trace_poly_vals());
}

/// First element of the trace, as defined by the statement to prove.
pub fn trace_first_element() -> (r: BaseField)
    ensures
        r@ == 3,
{
    BaseField::new(3)
}

/// The trace is 4 elements long so that we can use a small subgroup as
/// domain, and also be able to extend it to a domain of size 8.
pub fn generate_trace() -> (r: Vec<BaseField>)
    ensures
        seq_vals(r@) == trace_vals(),
        r@.len() == 4,
        all_in_field(seq_vals(r@)),
{
    let first = trace_first_element();
    let second = first.square();
    let third = second.square();
    let fourth = third.square();
    let mut out_trace: Vec<BaseField> = Vec::new();
    out_trace.push(first);
    out_trace.push(second);
    out_trace.push(third);
    out_trace.push(fourth);
    proof {
        assert(seq_vals(out_trace@).len() == 4);
        assert(first@ == 3);
        assert(fmul(3, 3) == 9) by (nonlinear_arith);
        assert(second@ == 9);
        assert(fmul(9, 9) == 13) by (nonlinear_arith);
        assert(third@ == 13);
        assert(fmul(13, 13) == 16) by (nonlinear_arith);
        assert(fourth@ == 16);
        assert(seq_vals(out_trace@)[0] == first@);
        assert(seq_vals(out_trace@)[1] == second@);
        assert(seq_vals(out_trace@)[2] == third@);
        assert(seq_vals(out_trace@)[3] == fourth@);
        assert(seq_vals(out_trace@) =~= trace_vals());
    }
    out_trace
}

} // verus!
