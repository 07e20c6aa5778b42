//! The verifier: replays the transcript to re-derive the challenges,
//! checks the four Merkle inclusions, and checks the FRI consistency
//! equation at the queried point.
use vstd::prelude::*;

use crate::algebra::{
    fadd, fdiv, fmul, fsub, in_field, lemma_fmul_nonzero, lemma_fsub_nonzero,
    lemma_pow_mod_succ, lemma_small_mod_17, pow_mod,
};
use crate::channel::{
    channel_commit, channel_init, channel_rehash, draw_element_val, draw_integer_val, Channel,
};
use crate::domain::domain_lde;
use crate::field::{all_in_field, lde_domain_vals, seq_vals, BaseField};
use crate::merkle::{leaf_hash, path_chain};
use crate::constraints::{boundary_vals, transition_vals};
use crate::poly::{eval_poly, lemma_eval_len3, lemma_eval_len4};
use crate::trace::{trace_first_element, trace_poly_vals};
use crate::util::copy_bytes;
use crate::{ProofQueryPhase, StarkProof, StarkProofView};

verus! {

/// The checks a proof can fail, in the order they are made.
#[derive(Clone, Copy, Debug, PartialEq, Eq, Structural)]
pub enum VerifierError {
    /// The opened trace(x) value is not under the trace commitment.
    TraceXMerkle,
    /// The opened trace(gx) value is not under the trace commitment.
    TraceGxMerkle,
    /// The opened cp(-x) value is not under the composition commitment.
    CpMerkle,
    /// The opened first-layer value is not under the FRI layer commitment.
    FriLayerMerkle,
    /// The FRI consistency equation fails at the queried point.
    FriConsistency,
}

/// The challenges a verifier derives from the three commitments, replaying
/// the prover's transcript.
#[verifier::ext_equal]
pub ghost struct VerifierDraws {
    pub alpha_0: int,
    pub alpha_1: int,
    pub beta_1: int,
    pub beta_0: int,
    pub query_idx: int,
}

pub open spec fn verifier_draws(p: StarkProofView) -> VerifierDraws {
    let c1 = channel_commit(channel_init(), p.trace_lde_commitment);
    let c2 = channel_rehash(c1);
    let c3 = channel_rehash(c2);
    let c4 = channel_commit(c3, p.composition_poly_lde_commitment);
    let c5 = channel_rehash(c4);
    let c6 = channel_commit(c5, p.fri_layer_deg_1_commitment);
    let c7 = channel_rehash(c6);
    VerifierDraws {
        alpha_0: draw_element_val(c1),
        alpha_1: draw_element_val(c2),
        beta_1: draw_element_val(c4),
        beta_0: draw_element_val(c6),
        query_idx: draw_integer_val(c7, 6),
    }
}

/// trace(x) opens correctly against the trace commitment.
pub open spec fn trace_x_inclusion_ok(p: StarkProofView) -> bool {
    path_chain(leaf_hash(p.trace_x), p.trace_x_path) == p.trace_lde_commitment
}

/// trace(gx) opens correctly against the trace commitment.
pub open spec fn trace_gx_inclusion_ok(p: StarkProofView) -> bool {
    path_chain(leaf_hash(p.trace_gx), p.trace_gx_path) == p.trace_lde_commitment
}

/// cp(-x) opens correctly against the composition commitment.
pub open spec fn cp_inclusion_ok(p: StarkProofView) -> bool {
    path_chain(leaf_hash(p.cp_minus_x), p.cp_minus_x_path) == p.composition_poly_lde_commitment
}

/// The first FRI layer value opens correctly against its commitment.
pub open spec fn fri_layer_inclusion_ok(p: StarkProofView) -> bool {
    path_chain(leaf_hash(p.fri_layer_deg_1_minus_x), p.fri_layer_deg_1_minus_x_path)
        == p.fri_layer_deg_1_commitment
}

/// The algebraic consistency equation, from the opened values and the
/// drawn challenges: reconstruct CP(x) from the trace openings via the two
/// quotients, fold twice with the FRI challenges, and compare with the
/// final layer value.
pub open spec fn fri_check(
    tx: int,
    tgx: int,
    cpm: int,
    f1m: int,
    f0: int,
    a0: int,
    a1: int,
    b1: int,
    b0: int,
    idx: int,
) -> bool {
    let x = lde_domain_vals()[idx];
    let bc = fdiv(fsub(tx, 3), fsub(x, 1));
    let tc = fdiv(fsub(tgx, pow_mod(tx, 2)), fmul(fmul(fsub(x, 1), fsub(x, 13)), fsub(x, 16)));
    let cp_x = fadd(fmul(bc, a0), fmul(tc, a1));
    let l1 = fadd(fdiv(fadd(cp_x, cpm), 2), fmul(b1, fdiv(fsub(cp_x, cpm), fmul(2, x))));
    let x2 = pow_mod(x, 2);
    let l0 = fadd(fdiv(fadd(l1, f1m), 2), fmul(b0, fdiv(fsub(l1, f1m), fmul(2, x2))));
    l0 == f0
}

/// The consistency equation, at the proof's own drawn challenges.
pub open spec fn fri_consistency_ok(p: StarkProofView) -> bool {
    let d = verifier_draws(p);
    fri_check(
        p.trace_x,
        p.trace_gx,
        p.cp_minus_x,
        p.fri_layer_deg_1_minus_x,
        p.fri_layer_deg_0_x,
        d.alpha_0,
        d.alpha_1,
        d.beta_1,
        d.beta_0,
        d.query_idx,
    )
}

/// A proof is accepted when all four openings verify and the consistency
/// equation holds.
pub open spec fn proof_accepted(p: StarkProofView) -> bool {
    &&& trace_x_inclusion_ok(p)
    &&& trace_gx_inclusion_ok(p)
    &&& cp_inclusion_ok(p)
    &&& fri_layer_inclusion_ok(p)
    &&& fri_consistency_ok(p)
}

/// The first check a rejected proof fails, in the order they are made.
pub open spec fn first_failure(p: StarkProofView) -> VerifierError {
    if !trace_x_inclusion_ok(p) {
        VerifierError::TraceXMerkle
    } else if !trace_gx_inclusion_ok(p) {
        VerifierError::TraceGxMerkle
    } else if !cp_inclusion_ok(p) {
        VerifierError::CpMerkle
    } else if !fri_layer_inclusion_ok(p) {
        VerifierError::FriLayerMerkle
    } else {
        VerifierError::FriConsistency
    }
}

/// Every point of the LDE domain is canonical, nonzero, and outside the
/// trace domain points the verifier divides by.
proof fn lemma_lde_point(idx: int)
    requires
        0 <= idx < 8,
    ensures
        in_field(lde_domain_vals()[idx]),
        lde_domain_vals()[idx] != 0,
        lde_domain_vals()[idx] != 1,
        lde_domain_vals()[idx] != 13,
        lde_domain_vals()[idx] != 16,
{
}


/// The ground facts of each queryable point: negation moves the index by
/// half the domain, squaring the shifted first-layer point negates the
/// square, and the two hand-derived quotient polynomials agree with the
/// quotients of the interpolated trace at that point.
#[verifier::rlimit(100)]
proof fn lemma_query_point_facts(idx: int)
    requires
        0 <= idx < 6,
    ensures
        ({
            let x = lde_domain_vals()[idx];
            &&& lde_domain_vals()[(idx + 4) % 8] == crate::algebra::fneg(x)
            &&& fmul(
                lde_domain_vals()[(idx % 4 + 2) % 4],
                lde_domain_vals()[(idx % 4 + 2) % 4],
            ) == crate::algebra::fneg(fmul(x, x))
            &&& fdiv(fsub(eval_poly(trace_poly_vals(), x), 3), fsub(x, 1)) == eval_poly(
                boundary_vals(),
                x,
            )
            &&& fdiv(
                fsub(
                    eval_poly(trace_poly_vals(), lde_domain_vals()[idx + 2]),
                    fmul(eval_poly(trace_poly_vals(), x), eval_poly(trace_poly_vals(), x)),
                ),
                fmul(fmul(fsub(x, 1), fsub(x, 13)), fsub(x, 16)),
            ) == eval_poly(transition_vals(), x)
        }),
{
    assert forall|i: int| 0 <= i < 4 implies in_field(#[trigger] trace_poly_vals()[i]) by {}
    assert forall|i: int| 0 <= i < 3 implies in_field(#[trigger] boundary_vals()[i]) by {}
    assert forall|i: int| 0 <= i < 4 implies in_field(#[trigger] transition_vals()[i]) by {}
        if idx == 0 {
            lemma_eval_len4(trace_poly_vals(), 3);
            lemma_eval_len4(trace_poly_vals(), 5);
            lemma_eval_len3(boundary_vals(), 3);
            lemma_eval_len4(transition_vals(), 3);
            assert((6 + 3 * 16 + 3 * 3 * 2 + 3 * 3 * 3 * 13) % 17 == 15) by (nonlinear_arith);
            assert((6 + 5 * 16 + 5 * 5 * 2 + 5 * 5 * 5 * 13) % 17 == 10) by (nonlinear_arith);
            assert((14 + 3 * 15 + 3 * 3 * 13) % 17 == 6) by (nonlinear_arith);
            assert((16 + 3 * 9 + 3 * 3 * 12 + 3 * 3 * 3 * 1) % 17 == 8) by (nonlinear_arith);
            assert(fmul(12, 9) == 6) by (nonlinear_arith);
            assert(fmul(15, 15) == 4) by (nonlinear_arith);
            assert(fmul(2, 7) == 14) by (nonlinear_arith);
            assert(fmul(14, 4) == 5) by (nonlinear_arith);
            assert(fmul(6, 7) == 8) by (nonlinear_arith);
            assert(fmul(3, 3) == 9) by (nonlinear_arith);
            assert(fmul(5, 5) == 8) by (nonlinear_arith);
        } else if idx == 1 {
            lemma_eval_len4(trace_poly_vals(), 10);
            lemma_eval_len4(trace_poly_vals(), 11);
            lemma_eval_len3(boundary_vals(), 10);
            lemma_eval_len4(transition_vals(), 10);
            assert((6 + 10 * 16 + 10 * 10 * 2 + 10 * 10 * 10 * 13) % 17 == 4) by (nonlinear_arith);
            assert((6 + 11 * 16 + 11 * 11 * 2 + 11 * 11 * 11 * 13) % 17 == 13) by (nonlinear_arith);
            assert((14 + 10 * 15 + 10 * 10 * 13) % 17 == 2) by (nonlinear_arith);
            assert((16 + 10 * 9 + 10 * 10 * 12 + 10 * 10 * 10 * 1) % 17 == 11) by (nonlinear_arith);
            assert(fmul(1, 2) == 2) by (nonlinear_arith);
            assert(fmul(4, 4) == 16) by (nonlinear_arith);
            assert(fmul(9, 14) == 7) by (nonlinear_arith);
            assert(fmul(7, 11) == 9) by (nonlinear_arith);
            assert(fmul(14, 2) == 11) by (nonlinear_arith);
            assert(fmul(10, 10) == 15) by (nonlinear_arith);
            assert(fmul(11, 11) == 2) by (nonlinear_arith);
        } else if idx == 2 {
            lemma_eval_len4(trace_poly_vals(), 5);
            lemma_eval_len4(trace_poly_vals(), 14);
            lemma_eval_len3(boundary_vals(), 5);
            lemma_eval_len4(transition_vals(), 5);
            assert((6 + 5 * 16 + 5 * 5 * 2 + 5 * 5 * 5 * 13) % 17 == 10) by (nonlinear_arith);
            assert((6 + 14 * 16 + 14 * 14 * 2 + 14 * 14 * 14 * 13) % 17 == 16) by (nonlinear_arith);
            assert((14 + 5 * 15 + 5 * 5 * 13) % 17 == 6) by (nonlinear_arith);
            assert((16 + 5 * 9 + 5 * 5 * 12 + 5 * 5 * 5 * 1) % 17 == 10) by (nonlinear_arith);
            assert(fmul(7, 13) == 6) by (nonlinear_arith);
            assert(fmul(10, 10) == 15) by (nonlinear_arith);
            assert(fmul(4, 9) == 2) by (nonlinear_arith);
            assert(fmul(2, 6) == 12) by (nonlinear_arith);
            assert(fmul(1, 10) == 10) by (nonlinear_arith);
            assert(fmul(5, 5) == 8) by (nonlinear_arith);
            assert(fmul(3, 3) == 9) by (nonlinear_arith);
        } else if idx == 3 {
            lemma_eval_len4(trace_poly_vals(), 11);
            lemma_eval_len4(trace_poly_vals(), 7);
            lemma_eval_len3(boundary_vals(), 11);
            lemma_eval_len4(transition_vals(), 11);
            assert((6 + 11 * 16 + 11 * 11 * 2 + 11 * 11 * 11 * 13) % 17 == 13) by (nonlinear_arith);
            assert((6 + 7 * 16 + 7 * 7 * 2 + 7 * 7 * 7 * 13) % 17 == 0) by (nonlinear_arith);
            assert((14 + 11 * 15 + 11 * 11 * 13) % 17 == 1) by (nonlinear_arith);
            assert((16 + 11 * 9 + 11 * 11 * 12 + 11 * 11 * 11 * 1) % 17 == 8) by (nonlinear_arith);
            assert(fmul(10, 12) == 1) by (nonlinear_arith);
            assert(fmul(13, 13) == 16) by (nonlinear_arith);
            assert(fmul(10, 15) == 14) by (nonlinear_arith);
            assert(fmul(14, 12) == 15) by (nonlinear_arith);
            assert(fmul(1, 8) == 8) by (nonlinear_arith);
            assert(fmul(11, 11) == 2) by (nonlinear_arith);
            assert(fmul(10, 10) == 15) by (nonlinear_arith);
        } else if idx == 4 {
            lemma_eval_len4(trace_poly_vals(), 14);
            lemma_eval_len4(trace_poly_vals(), 12);
            lemma_eval_len3(boundary_vals(), 14);
            lemma_eval_len4(transition_vals(), 14);
            assert((6 + 14 * 16 + 14 * 14 * 2 + 14 * 14 * 14 * 13) % 17 == 16) by (nonlinear_arith);
            assert((6 + 12 * 16 + 12 * 12 * 2 + 12 * 12 * 12 * 13) % 17 == 0) by (nonlinear_arith);
            assert((14 + 14 * 15 + 14 * 14 * 13) % 17 == 1) by (nonlinear_arith);
            assert((16 + 14 * 9 + 14 * 14 * 12 + 14 * 14 * 14 * 1) % 17 == 2) by (nonlinear_arith);
            assert(fmul(13, 4) == 1) by (nonlinear_arith);
            assert(fmul(16, 16) == 1) by (nonlinear_arith);
            assert(fmul(13, 1) == 13) by (nonlinear_arith);
            assert(fmul(13, 15) == 8) by (nonlinear_arith);
            assert(fmul(16, 15) == 2) by (nonlinear_arith);
            assert(fmul(14, 14) == 9) by (nonlinear_arith);
            assert(fmul(5, 5) == 8) by (nonlinear_arith);
        } else if idx == 5 {
            lemma_eval_len4(trace_poly_vals(), 7);
            lemma_eval_len4(trace_poly_vals(), 6);
            lemma_eval_len3(boundary_vals(), 7);
            lemma_eval_len4(transition_vals(), 7);
            assert((6 + 7 * 16 + 7 * 7 * 2 + 7 * 7 * 7 * 13) % 17 == 0) by (nonlinear_arith);
            assert((6 + 6 * 16 + 6 * 6 * 2 + 6 * 6 * 6 * 13) % 17 == 7) by (nonlinear_arith);
            assert((14 + 7 * 15 + 7 * 7 * 13) % 17 == 8) by (nonlinear_arith);
            assert((16 + 7 * 9 + 7 * 7 * 12 + 7 * 7 * 7 * 1) % 17 == 7) by (nonlinear_arith);
            assert(fmul(14, 3) == 8) by (nonlinear_arith);
            assert(fmul(0, 0) == 0) by (nonlinear_arith);
            assert(fmul(6, 11) == 15) by (nonlinear_arith);
            assert(fmul(15, 8) == 1) by (nonlinear_arith);
            assert(fmul(7, 1) == 7) by (nonlinear_arith);
            assert(fmul(7, 7) == 15) by (nonlinear_arith);
            assert(fmul(11, 11) == 2) by (nonlinear_arith);
        }
}

/// Law (honest openings verify): every opened value of an honestly
/// generated proof passes its Merkle inclusion check against the
/// corresponding commitment.
pub proof fn lemma_honest_openings_verify(p: StarkProofView, tp: Seq<int>)
    requires
        crate::prover::honest_proof_with(p, tp),
    ensures
        trace_x_inclusion_ok(p),
        trace_gx_inclusion_ok(p),
        cp_inclusion_ok(p),
        fri_layer_inclusion_ok(p),
{
    let c1 = channel_commit(channel_init(), p.trace_lde_commitment);
    let c2 = channel_rehash(c1);
    let c3 = channel_rehash(c2);
    let c4 = channel_commit(c3, p.composition_poly_lde_commitment);
    let c5 = channel_rehash(c4);
    let c6 = channel_commit(c5, p.fri_layer_deg_1_commitment);
    let c7 = channel_rehash(c6);
    let a0 = draw_element_val(c1);
    let a1 = draw_element_val(c2);
    let b1 = draw_element_val(c4);
    let idx = draw_integer_val(c7, 6);

    let trace_lde = Seq::new(8, |i: int| crate::poly::eval_poly(tp, lde_domain_vals()[i]));
    let cp = crate::poly::padd(
        crate::poly::pscale(crate::constraints::boundary_vals(), a0),
        crate::poly::pscale(crate::constraints::transition_vals(), a1),
    );
    let cp_lde = Seq::new(8, |i: int| crate::poly::eval_poly(cp, lde_domain_vals()[i]));
    let l1 = crate::poly::pfold(cp, b1);
    let d1 = Seq::new(
        4,
        |i: int| crate::algebra::fmul(lde_domain_vals()[i], lde_domain_vals()[i]),
    );
    let l1_eval = Seq::new(4, |i: int| crate::poly::eval_poly(l1, d1[i]));

    let t0 = choose|t: Seq<Seq<Seq<u8>>>| crate::prover::honest_trace_tree(p, t, trace_lde, idx);
    let t1 = choose|t: Seq<Seq<Seq<u8>>>| crate::prover::honest_cp_tree(p, t, cp_lde, idx);
    let t2 = choose|t: Seq<Seq<Seq<u8>>>| crate::prover::honest_l1_tree(p, t, l1_eval, idx);

    crate::merkle::lemma_merkle_roundtrip(t0, trace_lde, idx);
    crate::merkle::lemma_merkle_roundtrip(t0, trace_lde, idx + 2);
    vstd::arithmetic::div_mod::lemma_mod_bound(idx + 4, 8);
    crate::merkle::lemma_merkle_roundtrip(t1, cp_lde, (idx + 4) % 8);
    vstd::arithmetic::div_mod::lemma_mod_bound(idx % 4 + 2, 4);
    crate::merkle::lemma_merkle_roundtrip(t2, l1_eval, (idx % 4 + 2) % 4);
}

/// The consistency half of completeness: the FRI equation holds of an
/// honestly generated proof.
#[verifier::rlimit(100)]
pub proof fn lemma_honest_proof_consistent(p: StarkProofView, tp: Seq<int>)
    requires
        crate::prover::honest_proof_with(p, tp),
    ensures
        fri_consistency_ok(p),
{
    crate::trace::lemma_trace_poly_unique(tp);

    // name the transcript draws; the verifier re-derives exactly these
    let c1 = channel_commit(channel_init(), p.trace_lde_commitment);
    let c2 = channel_rehash(c1);
    let c3 = channel_rehash(c2);
    let c4 = channel_commit(c3, p.composition_poly_lde_commitment);
    let c5 = channel_rehash(c4);
    let c6 = channel_commit(c5, p.fri_layer_deg_1_commitment);
    let c7 = channel_rehash(c6);
    let a0 = draw_element_val(c1);
    let a1 = draw_element_val(c2);
    let b1 = draw_element_val(c4);
    let b0 = draw_element_val(c6);
    let idx = draw_integer_val(c7, 6);
    crate::channel::lemma_draw_element_in_field(c1);
    crate::channel::lemma_draw_element_in_field(c2);
    crate::channel::lemma_draw_element_in_field(c4);
    crate::channel::lemma_draw_element_in_field(c6);

    let x = lde_domain_vals()[idx];
    lemma_lde_point(idx);
    lemma_query_point_facts(idx);
    lemma_lde_point(idx + 2);

    // the trace openings are evaluations of the unique trace polynomial
    let trace_lde = Seq::new(8, |i: int| eval_poly(tp, lde_domain_vals()[i]));
    assert(p.trace_x == trace_lde[idx]);
    assert(p.trace_x == eval_poly(trace_poly_vals(), x));
    assert(p.trace_gx == eval_poly(trace_poly_vals(), lde_domain_vals()[idx + 2]));
    crate::poly::lemma_eval_in_field(trace_poly_vals(), x);
    crate::algebra::lemma_pow_mod_two(p.trace_x);

    // the reconstructed quotients are the committed polynomials' values
    let bc = fdiv(fsub(p.trace_x, 3), fsub(x, 1));
    let tc = fdiv(
        fsub(p.trace_gx, pow_mod(p.trace_x, 2)),
        fmul(fmul(fsub(x, 1), fsub(x, 13)), fsub(x, 16)),
    );
    assert(bc == eval_poly(boundary_vals(), x));
    assert(tc == eval_poly(transition_vals(), x));

    // so the reconstructed CP(x) is the committed polynomial's value at x
    let cp = crate::poly::padd(
        crate::poly::pscale(boundary_vals(), a0),
        crate::poly::pscale(transition_vals(), a1),
    );
    crate::poly::lemma_eval_padd(
        crate::poly::pscale(boundary_vals(), a0),
        crate::poly::pscale(transition_vals(), a1),
        x,
    );
    crate::poly::lemma_eval_pscale(boundary_vals(), a0, x);
    crate::poly::lemma_eval_pscale(transition_vals(), a1, x);
    crate::algebra::lemma_fmul_assoc(bc, a0, 1);
    crate::algebra::lemma_fmul_assoc(tc, a1, 1);
    let cp_x = fadd(fmul(bc, a0), fmul(tc, a1));
    assert(cp_x == eval_poly(cp, x));

    // the opened cp value is the committed polynomial at -x
    let cp_lde = Seq::new(8, |i: int| eval_poly(cp, lde_domain_vals()[i]));
    vstd::arithmetic::div_mod::lemma_mod_bound(idx + 4, 8);
    assert(p.cp_minus_x == cp_lde[(idx + 4) % 8]);
    assert(p.cp_minus_x == eval_poly(cp, crate::algebra::fneg(x)));

    // first fold: the verifier's first-layer value is the committed
    // layer's value at x^2
    assert(all_in_field(cp)) by {
        assert forall|i: int| 0 <= i < cp.len() implies in_field(#[trigger] cp[i]) by {
            crate::algebra::lemma_ops_in_field(
                crate::poly::pscale(boundary_vals(), a0)[i],
                crate::poly::pscale(transition_vals(), a1)[i],
            );
        }
    }
    crate::poly::lemma_fri_fold_identity(cp, b1, x);
    let l1p = crate::poly::pfold(cp, b1);
    let l1v = fadd(
        fdiv(fadd(cp_x, p.cp_minus_x), 2),
        fmul(b1, fdiv(fsub(cp_x, p.cp_minus_x), fmul(2, x))),
    );
    assert(l1v == eval_poly(l1p, fmul(x, x)));

    // x^2 as the next evaluation point
    crate::algebra::lemma_pow_mod_two(x);
    let x2 = fmul(x, x);
    crate::algebra::lemma_ops_in_field(x, x);
    lemma_fmul_nonzero(x, x);

    // the opened first-layer value is the committed layer at -x^2
    let d1 = Seq::new(
        4,
        |i: int| fmul(lde_domain_vals()[i], lde_domain_vals()[i]),
    );
    let l1_eval = Seq::new(4, |i: int| eval_poly(l1p, d1[i]));
    vstd::arithmetic::div_mod::lemma_mod_bound(idx % 4 + 2, 4);
    vstd::arithmetic::div_mod::lemma_mod_bound(idx, 4);
    assert(p.fri_layer_deg_1_minus_x == l1_eval[(idx % 4 + 2) % 4]);
    assert(d1[(idx % 4 + 2) % 4] == crate::algebra::fneg(x2));
    assert(p.fri_layer_deg_1_minus_x == eval_poly(l1p, crate::algebra::fneg(x2)));

    // second fold
    assert(all_in_field(l1p)) by {
        assert forall|i: int| 0 <= i < l1p.len() implies in_field(#[trigger] l1p[i]) by {
            if 2 * i + 1 < cp.len() {
                crate::algebra::lemma_ops_in_field(cp[2 * i], fmul(b1, cp[2 * i + 1]));
            }
        }
    }
    crate::poly::lemma_fri_fold_identity(l1p, b0, x2);
    let l0v = fadd(
        fdiv(fadd(l1v, p.fri_layer_deg_1_minus_x), 2),
        fmul(b0, fdiv(fsub(l1v, p.fri_layer_deg_1_minus_x), fmul(2, x2))),
    );
    let l0p = crate::poly::pfold(l1p, b0);
    assert(l0v == eval_poly(l0p, fmul(x2, x2)));

    // the last layer is a constant: it evaluates equally everywhere
    assert(cp.len() == 4);
    assert(l1p.len() == 2);
    assert(l0p.len() == 1);
    assert(in_field(l0p[0])) by {
        crate::algebra::lemma_ops_in_field(l1p[0], fmul(b0, l1p[1]));
    }
    let d0 = Seq::new(2, |i: int| fmul(d1[i], d1[i]));
    assert(p.fri_layer_deg_0_x == eval_poly(l0p, d0[0]));
    lemma_constant_eval(l0p, d0[0]);
    lemma_constant_eval(l0p, fmul(x2, x2));
    assert(l0v == p.fri_layer_deg_0_x);

    assert(fri_check(
        p.trace_x,
        p.trace_gx,
        p.cp_minus_x,
        p.fri_layer_deg_1_minus_x,
        p.fri_layer_deg_0_x,
        a0,
        a1,
        b1,
        b0,
        idx,
    ));
}

/// Law (happy path): a proof from an honest prover run is accepted by the
/// verifier. Together with the prover's and verifier's own contracts, this
/// says that verifying a freshly generated proof returns accept.
pub proof fn lemma_generated_proof_accepted(p: StarkProofView)
    requires
        crate::prover::honest_proof(p),
    ensures
        proof_accepted(p),
{
    let tp = choose|tp: Seq<int>| crate::prover::honest_proof_with(p, tp);
    lemma_honest_openings_verify(p, tp);
    lemma_honest_proof_consistent(p, tp);
}

/// A length-one coefficient sequence is a constant function.
proof fn lemma_constant_eval(s: Seq<int>, t: int)
    requires
        s.len() == 1,
        in_field(s[0]),
    ensures
        eval_poly(s, t) == s[0],
{
    assert(s.drop_first().len() == 0);
    assert(eval_poly(s.drop_first(), t) == 0);
    vstd::arithmetic::mul::lemma_mul_by_zero_is_zero(t);
    lemma_small_mod_17(s[0]);
}

/// Checks the whole proof: replay the transcript, check the Merkle
/// openings, then the consistency equation. Accepts exactly the proofs
/// that `proof_accepted` describes; a rejection names the first failing
/// check.
pub fn verify(stark_proof: &StarkProof) -> (r: Result<(), VerifierError>)
    requires
        stark_proof.wf(),
    ensures
        match r {
            Ok(()) => proof_accepted(stark_proof@),
            Err(e) => !proof_accepted(stark_proof@) && e == first_failure(stark_proof@),
        },
{
    let mut channel = Channel::new();

    // We interact with the channel in the exact same way the prover does,
    // in order to draw the same values the prover did when generating the
    // proof.
    channel.commit(copy_bytes(&stark_proof.trace_lde_commitment));

    let alpha_0 = channel.random_element();
    let alpha_1 = channel.random_element();

    channel.commit(copy_bytes(&stark_proof.composition_poly_lde_commitment));

    let beta_fri_deg_1 = channel.random_element();
    channel.commit(copy_bytes(&stark_proof.fri_layer_deg_1_commitment));

    let beta_fri_deg_0 = channel.random_element();

    let query_idx = channel.random_integer(8 - 2) as usize;

    proof {
        let d = verifier_draws(stark_proof@);
        assert(alpha_0@ == d.alpha_0);
        assert(alpha_1@ == d.alpha_1);
        assert(beta_fri_deg_1@ == d.beta_1);
        assert(beta_fri_deg_0@ == d.beta_0);
        assert(query_idx as int == d.query_idx);
    }

    // Verify all the Merkle proofs, to make sure that the values in the
    // proof struct are the committed ones.
    match verify_merkle_proofs(stark_proof) {
        Err(e) => {
            return Err(e);
        },
        Ok(()) => {},
    }

    verify_query(
        &stark_proof.query_phase,
        alpha_0,
        alpha_1,
        beta_fri_deg_1,
        beta_fri_deg_0,
        query_idx,
    )
}

/// The four Merkle inclusion checks, failing on the first bad one.
fn verify_merkle_proofs(stark_proof: &StarkProof) -> (r: Result<(), VerifierError>)
    requires
        stark_proof.wf(),
    ensures
        match r {
            Ok(()) => trace_x_inclusion_ok(stark_proof@) && trace_gx_inclusion_ok(stark_proof@)
                && cp_inclusion_ok(stark_proof@) && fri_layer_inclusion_ok(stark_proof@),
            Err(e) => {
                ||| e == VerifierError::TraceXMerkle && !trace_x_inclusion_ok(stark_proof@)
                ||| e == VerifierError::TraceGxMerkle && trace_x_inclusion_ok(stark_proof@)
                    && !trace_gx_inclusion_ok(stark_proof@)
                ||| e == VerifierError::CpMerkle && trace_x_inclusion_ok(stark_proof@)
                    && trace_gx_inclusion_ok(stark_proof@) && !cp_inclusion_ok(stark_proof@)
                ||| e == VerifierError::FriLayerMerkle && trace_x_inclusion_ok(stark_proof@)
                    && trace_gx_inclusion_ok(stark_proof@) && cp_inclusion_ok(stark_proof@)
                    && !fri_layer_inclusion_ok(stark_proof@)
            },
        },
{
    // trace(x)
    let (value, merkle_proof) = (
        &stark_proof.query_phase.trace_x.0,
        &stark_proof.query_phase.trace_x.1,
    );
    if !merkle_proof.verify_inclusion(*value, &stark_proof.trace_lde_commitment) {
        return Err(VerifierError::TraceXMerkle);
    }

    // trace(gx)
    let (value, merkle_proof) = (
        &stark_proof.query_phase.trace_gx.0,
        &stark_proof.query_phase.trace_gx.1,
    );
    if !merkle_proof.verify_inclusion(*value, &stark_proof.trace_lde_commitment) {
        return Err(VerifierError::TraceGxMerkle);
    }

    // cp(-x)
    let (value, merkle_proof) = (
        &stark_proof.query_phase.cp_minus_x.0,
        &stark_proof.query_phase.cp_minus_x.1,
    );
    if !merkle_proof.verify_inclusion(*value, &stark_proof.composition_poly_lde_commitment) {
        return Err(VerifierError::CpMerkle);
    }

    // FRI layer degree 1 at -x^2
    let (value, merkle_proof) = (
        &stark_proof.query_phase.fri_layer_deg_1_minus_x.0,
        &stark_proof.query_phase.fri_layer_deg_1_minus_x.1,
    );
    if !merkle_proof.verify_inclusion(*value, &stark_proof.fri_layer_deg_1_commitment) {
        return Err(VerifierError::FriLayerMerkle);
    }

    Ok(())
}

/// The algebraic consistency check at the queried point.
fn verify_query(
    queries: &ProofQueryPhase,
    alpha_0: BaseField,
    alpha_1: BaseField,
    beta_fri_deg_1: BaseField,
    beta_fri_deg_0: BaseField,
    query_idx: usize,
) -> (r: Result<(), VerifierError>)
    requires
        in_field(queries.trace_x.0@),
        in_field(queries.trace_gx.0@),
        in_field(queries.cp_minus_x.0@),
        in_field(queries.fri_layer_deg_1_minus_x.0@),
        in_field(queries.fri_layer_deg_0_x@),
        in_field(alpha_0@),
        in_field(alpha_1@),
        in_field(beta_fri_deg_1@),
        in_field(beta_fri_deg_0@),
        query_idx < 6,
    ensures
        match r {
            Ok(()) => fri_check(
                queries.trace_x.0@,
                queries.trace_gx.0@,
                queries.cp_minus_x.0@,
                queries.fri_layer_deg_1_minus_x.0@,
                queries.fri_layer_deg_0_x@,
                alpha_0@,
                alpha_1@,
                beta_fri_deg_1@,
                beta_fri_deg_0@,
                query_idx as int,
            ),
            Err(e) => !fri_check(
                queries.trace_x.0@,
                queries.trace_gx.0@,
                queries.cp_minus_x.0@,
                queries.fri_layer_deg_1_minus_x.0@,
                queries.fri_layer_deg_0_x@,
                alpha_0@,
                alpha_1@,
                beta_fri_deg_1@,
                beta_fri_deg_0@,
                query_idx as int,
            ) && e == VerifierError::FriConsistency,
        },
{
    let lde = domain_lde();
    let x = lde.elements[query_idx];
    proof {
        assert(seq_vals(lde.elements@)[query_idx as int] == x@);
        lemma_lde_point(query_idx as int);
        lemma_fsub_nonzero(x@, 1);
        lemma_fsub_nonzero(x@, 13);
        lemma_fsub_nonzero(x@, 16);
        lemma_fmul_nonzero(fsub(x@, 1), fsub(x@, 13));
        lemma_fmul_nonzero(fmul(fsub(x@, 1), fsub(x@, 13)), fsub(x@, 16));
        lemma_fmul_nonzero(2, x@);
        // x^2 is x * x, and is nonzero with x
        lemma_pow_mod_succ(x@, 1);
        lemma_pow_mod_succ(x@, 0);
        vstd::arithmetic::power::lemma_pow0(x@);
        lemma_small_mod_17(1);
        crate::algebra::lemma_fmul_one(x@);
        lemma_fmul_nonzero(x@, x@);
        lemma_fmul_nonzero(2, pow_mod(x@, 2));
    }

    // Ensure that the composition polynomial value is actually derived
    // from the trace.
    let boundary_constraint_x: BaseField = {
        let p1_x = queries.trace_x.0.sub(trace_first_element());

        p1_x.div(x.sub(BaseField::new(1)))
    };

    let transition_constraint_x: BaseField = {
        let p2_x = queries.trace_gx.0.sub(queries.trace_x.0.exp(2));

        let denom = (x.sub(BaseField::new(1))).mul(x.sub(BaseField::new(13))).mul(
            x.sub(BaseField::new(16)),
        );

        p2_x.div(denom)
    };

    // composition_polynomial(x)
    let cp_x = boundary_constraint_x.mul(alpha_0).add(transition_constraint_x.mul(alpha_1));

    let two = BaseField::new(2);

    // FRI layer deg 1
    let fri_layer_deg_1_x: BaseField = {
        let cp_minus_x = queries.cp_minus_x.0;

        let g_x_squared = (cp_x.add(cp_minus_x)).div(two);
        let h_x_squared = (cp_x.sub(cp_minus_x)).div(two.mul(x));

        g_x_squared.add(beta_fri_deg_1.mul(h_x_squared))
    };

    // FRI layer deg 0
    let x_squared = x.exp(2);

    let expected_fri_layer_deg_0_x: BaseField = {
        let fri_layer_deg_1_minus_x = queries.fri_layer_deg_1_minus_x.0;

        let g_x_squared = (fri_layer_deg_1_x.add(fri_layer_deg_1_minus_x)).div(two);
        let h_x_squared = (fri_layer_deg_1_x.sub(fri_layer_deg_1_minus_x)).div(
            two.mul(x_squared),
        );

        g_x_squared.add(beta_fri_deg_0.mul(h_x_squared))
    };

    if expected_fri_layer_deg_0_x.as_byte() == queries.fri_layer_deg_0_x.as_byte() {
        Ok(())
    } else {
        Err(VerifierError::FriConsistency)
    }
}

} // verus!
