//! The prover: commit to the extended trace, build and commit the
//! composition polynomial, fold it down through FRI, and open the queried
//! positions.
use vstd::prelude::*;

use crate::algebra::{fmul, in_field};
use crate::channel::{
    channel_commit, channel_init, channel_rehash, draw_element_val, draw_integer_val, Channel,
};
use crate::constraints::{boundary_vals, composition_polynomial, transition_vals};
use crate::domain::{domain_lde, domain_trace};
use crate::field::{all_in_field, lde_domain_vals, seq_vals, trace_domain_vals, BaseField};
use crate::merkle::{path_model, path_view, tree_wf, MerklePath, MerkleTree};
use crate::poly::{eval_poly, padd, pfold, pscale, wf_coeffs, Polynomial};
use crate::trace::{generate_trace, trace_vals};
use crate::util::{copy_bytes, lemma_small_pow2};
use crate::{ProofQueryPhase, StarkProof, StarkProofView};

verus! {

/// The trace commitment covers the low-degree extension of `tp`, and the
/// two trace openings follow their paths out of that very tree.
pub open spec fn honest_trace_tree(
    p: StarkProofView,
    t: Seq<Seq<Seq<u8>>>,
    trace_lde: Seq<int>,
    idx: int,
) -> bool {
    &&& tree_wf(t, trace_lde)
    &&& p.trace_lde_commitment == t.last()[0]
    &&& p.trace_x_path == path_model(t, idx)
    &&& p.trace_gx_path == path_model(t, idx + 2)
}

/// The composition commitment covers the composition polynomial's
/// extension, with the `cp(-x)` opening from that tree.
pub open spec fn honest_cp_tree(
    p: StarkProofView,
    t: Seq<Seq<Seq<u8>>>,
    cp_lde: Seq<int>,
    idx: int,
) -> bool {
    &&& tree_wf(t, cp_lde)
    &&& p.composition_poly_lde_commitment == t.last()[0]
    &&& p.cp_minus_x_path == path_model(t, (idx + 4) % 8)
}

/// The FRI-layer commitment covers the first folded layer's evaluations,
/// with the `L1(-x^2)` opening from that tree.
pub open spec fn honest_l1_tree(
    p: StarkProofView,
    t: Seq<Seq<Seq<u8>>>,
    l1_eval: Seq<int>,
    idx: int,
) -> bool {
    &&& tree_wf(t, l1_eval)
    &&& p.fri_layer_deg_1_commitment == t.last()[0]
    &&& p.fri_layer_deg_1_minus_x_path == path_model(t, (idx % 4 + 2) % 4)
}

/// An honest run of the prover with trace polynomial `tp`: the challenges
/// come from the transcript of the three commitments, every committed
/// vector is the stated evaluation or fold, and every opening is the
/// committed value at the queried position, with its real path.
pub open spec fn honest_proof_with(p: StarkProofView, tp: Seq<int>) -> bool {
    let c1 = channel_commit(channel_init(), p.trace_lde_commitment);
    let a0 = draw_element_val(c1);
    let c2 = channel_rehash(c1);
    let a1 = draw_element_val(c2);
    let c3 = channel_rehash(c2);
    let c4 = channel_commit(c3, p.composition_poly_lde_commitment);
    let b1 = draw_element_val(c4);
    let c5 = channel_rehash(c4);
    let c6 = channel_commit(c5, p.fri_layer_deg_1_commitment);
    let b0 = draw_element_val(c6);
    let c7 = channel_rehash(c6);
    let idx = draw_integer_val(c7, 6);

    let trace_lde = Seq::new(8, |i: int| eval_poly(tp, lde_domain_vals()[i]));
    let cp = padd(pscale(boundary_vals(), a0), pscale(transition_vals(), a1));
    let cp_lde = Seq::new(8, |i: int| eval_poly(cp, lde_domain_vals()[i]));
    let l1 = pfold(cp, b1);
    let d1 = Seq::new(4, |i: int| fmul(lde_domain_vals()[i], lde_domain_vals()[i]));
    let l1_eval = Seq::new(4, |i: int| eval_poly(l1, d1[i]));
    let l0 = pfold(l1, b0);
    let d0 = Seq::new(2, |i: int| fmul(d1[i], d1[i]));

    &&& wf_coeffs(tp)
    &&& tp.len() == 4
    &&& forall|j: int| 0 <= j < 4 ==> eval_poly(tp, trace_domain_vals()[j]) == trace_vals()[j]
    &&& 0 <= idx < 6
    &&& p.trace_x == trace_lde[idx]
    &&& p.trace_gx == trace_lde[idx + 2]
    &&& p.cp_minus_x == cp_lde[(idx + 4) % 8]
    &&& p.fri_layer_deg_1_minus_x == l1_eval[(idx % 4 + 2) % 4]
    &&& p.fri_layer_deg_0_x == eval_poly(l0, d0[0])
    &&& exists|t: Seq<Seq<Seq<u8>>>| honest_trace_tree(p, t, trace_lde, idx)
    &&& exists|t: Seq<Seq<Seq<u8>>>| honest_cp_tree(p, t, cp_lde, idx)
    &&& exists|t: Seq<Seq<Seq<u8>>>| honest_l1_tree(p, t, l1_eval, idx)
}

/// An honest run of the prover, for some trace polynomial interpolating
/// the trace.
pub open spec fn honest_proof(p: StarkProofView) -> bool {
    exists|tp: Seq<int>| honest_proof_with(p, tp)
}

/// Assembles the honest-run predicate from the facts the prover's calls
/// establish: the transcript states, the committed vectors, and the opened
/// positions.
#[verifier::rlimit(100)]
proof fn lemma_assemble_honest(
    p: StarkProofView,
    tp: Seq<int>,
    t0: Seq<Seq<Seq<u8>>>,
    t1: Seq<Seq<Seq<u8>>>,
    t2: Seq<Seq<Seq<u8>>>,
    c1: crate::channel::ChannelView,
    c2: crate::channel::ChannelView,
    c3: crate::channel::ChannelView,
    c4: crate::channel::ChannelView,
    c5: crate::channel::ChannelView,
    c6: crate::channel::ChannelView,
    c7: crate::channel::ChannelView,
    a0: int,
    a1: int,
    b1: int,
    b0: int,
    idx: int,
    trace_lde: Seq<int>,
    cp: Seq<int>,
    cp_lde: Seq<int>,
    l1: Seq<int>,
    d1: Seq<int>,
    l1_eval: Seq<int>,
    l0: Seq<int>,
    d0: Seq<int>,
)
    requires
        wf_coeffs(tp),
        tp.len() == 4,
        forall|j: int| 0 <= j < 4 ==> eval_poly(tp, trace_domain_vals()[j]) == trace_vals()[j],
        c1 == channel_commit(channel_init(), p.trace_lde_commitment),
        c2 == channel_rehash(c1),
        c3 == channel_rehash(c2),
        c4 == channel_commit(c3, p.composition_poly_lde_commitment),
        c5 == channel_rehash(c4),
        c6 == channel_commit(c5, p.fri_layer_deg_1_commitment),
        c7 == channel_rehash(c6),
        a0 == draw_element_val(c1),
        a1 == draw_element_val(c2),
        b1 == draw_element_val(c4),
        b0 == draw_element_val(c6),
        idx == draw_integer_val(c7, 6),
        0 <= idx < 6,
        trace_lde == Seq::new(8, |i: int| eval_poly(tp, lde_domain_vals()[i])),
        cp == padd(pscale(boundary_vals(), a0), pscale(transition_vals(), a1)),
        cp_lde == Seq::new(8, |i: int| eval_poly(cp, lde_domain_vals()[i])),
        l1 == pfold(cp, b1),
        d1 == Seq::new(4, |i: int| fmul(lde_domain_vals()[i], lde_domain_vals()[i])),
        l1_eval == Seq::new(4, |i: int| eval_poly(l1, d1[i])),
        l0 == pfold(l1, b0),
        d0 == Seq::new(2, |i: int| fmul(d1[i], d1[i])),
        p.trace_x == trace_lde[idx],
        p.trace_gx == trace_lde[idx + 2],
        p.cp_minus_x == cp_lde[(idx + 4) % 8],
        p.fri_layer_deg_1_minus_x == l1_eval[(idx % 4 + 2) % 4],
        p.fri_layer_deg_0_x == eval_poly(l0, d0[0]),
        honest_trace_tree(p, t0, trace_lde, idx),
        honest_cp_tree(p, t1, cp_lde, idx),
        honest_l1_tree(p, t2, l1_eval, idx),
    ensures
        honest_proof(p),
{
    assert(honest_proof_with(p, tp));
}

/// Runs the whole protocol and emits the proof of the fixed statement.
#[verifier::rlimit(100)]
pub fn generate_proof() -> (r: StarkProof)
    ensures
        honest_proof(r@),
        r.wf(),
{
    let mut channel = Channel::new();

    ////////////////////
    // Commitment phase
    ////////////////////

    // Trace
    let trace = generate_trace();
    let dt = domain_trace();
    let dl = domain_lde();

    let trace_polynomial = match Polynomial::lagrange_interp(&dt.elements, &trace) {
        Ok(p) => p,
        Err(_) => vstd::pervasive::unreached(),
    };
    let ghost tp = trace_polynomial@;

    let trace_lde = trace_polynomial.eval_domain(&dl.elements);
    proof {
        lemma_small_pow2();
    }
    let trace_lde_merkleized = MerkleTree::new(&trace_lde);

    channel.commit(copy_bytes(&trace_lde_merkleized.root));
    let ghost c1 = channel@;

    // Composition polynomial
    let alpha_0 = channel.random_element();
    let ghost c2 = channel@;
    let alpha_1 = channel.random_element();
    let ghost c3 = channel@;
    let cp = composition_polynomial(alpha_0, alpha_1);

    let cp_lde = cp.eval_domain(&dl.elements);
    let cp_lde_merkleized = MerkleTree::new(&cp_lde);

    channel.commit(copy_bytes(&cp_lde_merkleized.root));
    let ghost c4 = channel@;

    // FRI: fold the composition polynomial down to a constant, committing
    // the intermediate layer.
    let beta_fri_deg_1 = channel.random_element();
    let ghost c5 = channel@;
    let (domain_deg_1, fri_layer_deg_1_poly) = fri_step(&dl.elements, &cp, beta_fri_deg_1);
    let fri_layer_deg_1_eval = fri_layer_deg_1_poly.eval_domain(&domain_deg_1);
    let fri_layer_deg_1_merkleized = MerkleTree::new(&fri_layer_deg_1_eval);

    channel.commit(copy_bytes(&fri_layer_deg_1_merkleized.root));
    let ghost c6 = channel@;

    let beta_fri_deg_0 = channel.random_element();
    let ghost c7 = channel@;
    let (domain_deg_0, fri_layer_deg_0_poly) = fri_step(
        &domain_deg_1,
        &fri_layer_deg_1_poly,
        beta_fri_deg_0,
    );

    // The last layer has degree 0, with 2 domain elements; a degree-0
    // polynomial is a constant function, so it evaluates to the same value
    // at both of them.
    proof {
        assert(domain_deg_0@.len() == 2);
        assert(fri_layer_deg_0_poly@.len() == 1);
        assert(seq_vals(domain_deg_0@)[0] == domain_deg_0@[0]@);
        assert(in_field(domain_deg_0@[0]@));
    }
    let fri_layer_deg_0_eval = fri_layer_deg_0_poly.eval(domain_deg_0[0]);

    ////////////////////
    // Query phase
    ////////////////////

    // We send (extended) trace elements at index i and i+2: with g = 13
    // the trace-domain generator and w = 9 the LDE-domain generator,
    // g = w^2, so t(g * h * w^i) = t(h * w^(i+2)) sits two positions
    // further. The index is drawn below 6 so that i+2 stays in range.
    let query_idx = channel.random_integer(8 - 2) as usize;

    let query_phase = generate_query_phase(
        query_idx,
        &trace_lde,
        &trace_lde_merkleized,
        &cp_lde,
        &cp_lde_merkleized,
        &fri_layer_deg_1_eval,
        &fri_layer_deg_1_merkleized,
        fri_layer_deg_0_eval,
    );

    proof {
        // exactly three commitments were absorbed
        assert(channel@.commitments.len() == 3);
    }

    let stark_proof = StarkProof {
        trace_lde_commitment: trace_lde_merkleized.root,
        composition_poly_lde_commitment: cp_lde_merkleized.root,
        fri_layer_deg_1_commitment: fri_layer_deg_1_merkleized.root,
        query_phase,
    };

    proof {
        let p = stark_proof@;
        let idx = query_idx as int;
        let a0 = alpha_0@;
        let a1 = alpha_1@;
        assert forall|j: int| 0 <= j < 4 implies eval_poly(tp, trace_domain_vals()[j])
            == trace_vals()[j] by {
            assert(eval_poly(tp, seq_vals(dt.elements@)[j]) == seq_vals(trace@)[j]);
        }
        assert(seq_vals(trace_lde@) =~= Seq::new(8, |i: int| eval_poly(tp, lde_domain_vals()[i])));
        assert(seq_vals(cp_lde@) =~= Seq::new(8, |i: int| eval_poly(cp@, lde_domain_vals()[i])));
        assert(seq_vals(domain_deg_1@) =~= Seq::new(
            4,
            |i: int| fmul(lde_domain_vals()[i], lde_domain_vals()[i]),
        ));
        assert(seq_vals(fri_layer_deg_1_eval@) =~= Seq::new(
            4,
            |i: int| eval_poly(fri_layer_deg_1_poly@, seq_vals(domain_deg_1@)[i]),
        ));
        assert(seq_vals(domain_deg_0@) =~= Seq::new(
            2,
            |i: int| fmul(seq_vals(domain_deg_1@)[i], seq_vals(domain_deg_1@)[i]),
        ));
        assert(honest_trace_tree(p, trace_lde_merkleized@, seq_vals(trace_lde@), idx));
        assert(honest_cp_tree(p, cp_lde_merkleized@, seq_vals(cp_lde@), idx));
        assert(honest_l1_tree(p, fri_layer_deg_1_merkleized@, seq_vals(fri_layer_deg_1_eval@), idx));
        lemma_assemble_honest(
            p,
            tp,
            trace_lde_merkleized@,
            cp_lde_merkleized@,
            fri_layer_deg_1_merkleized@,
            c1,
            c2,
            c3,
            c4,
            c5,
            c6,
            c7,
            a0,
            a1,
            beta_fri_deg_1@,
            beta_fri_deg_0@,
            idx,
            seq_vals(trace_lde@),
            cp@,
            seq_vals(cp_lde@),
            fri_layer_deg_1_poly@,
            seq_vals(domain_deg_1@),
            seq_vals(fri_layer_deg_1_eval@),
            fri_layer_deg_0_poly@,
            seq_vals(domain_deg_0@),
        );
    }

    stark_proof
}

/// Returns the domain and polynomial of the next FRI layer: the first half
/// of the domain squared, and the fold of the polynomial. (Squaring either
/// half of a multiplicative subgroup's domain gives the same halved
/// domain.)
fn fri_step(domain: &Vec<BaseField>, polynomial: &Polynomial, beta: BaseField) -> (r: (
    Vec<BaseField>,
    Polynomial,
))
    requires
        all_in_field(seq_vals(domain@)),
        polynomial.wf(),
        polynomial@.len() >= 2,
        in_field(beta@),
    ensures
        r.0@.len() == domain@.len() / 2,
        forall|i: int|
            0 <= i < domain@.len() / 2 ==> #[trigger] seq_vals(r.0@)[i] == fmul(
                seq_vals(domain@)[i],
                seq_vals(domain@)[i],
            ),
        all_in_field(seq_vals(r.0@)),
        r.1@ == pfold(polynomial@, beta@),
        r.1.wf(),
        r.1@.len() == (polynomial@.len() + 1) / 2,
{
    let half = domain.len() / 2;
    let mut next_domain: Vec<BaseField> = Vec::new();
    for i in 0..half
        invariant
            half == domain@.len() / 2,
            all_in_field(seq_vals(domain@)),
            next_domain@.len() == i,
            forall|j: int|
                0 <= j < i ==> #[trigger] seq_vals(next_domain@)[j] == fmul(
                    seq_vals(domain@)[j],
                    seq_vals(domain@)[j],
                ),
            all_in_field(seq_vals(next_domain@)),
    {
        let x = domain[i];
        proof {
            assert(seq_vals(domain@)[i as int] == x@);
        }
        let ghost prev = next_domain@;
        next_domain.push(x.mul(x));
        proof {
            assert forall|j: int| 0 <= j < i + 1 implies #[trigger] seq_vals(next_domain@)[j]
                == fmul(seq_vals(domain@)[j], seq_vals(domain@)[j]) && in_field(
                seq_vals(next_domain@)[j],
            ) by {
                assert(seq_vals(next_domain@)[j] == next_domain@[j]@);
                if j < i {
                    assert(next_domain@[j] == prev[j]);
                    assert(seq_vals(prev)[j] == prev[j]@);
                }
            }
        }
    }

    (next_domain, polynomial.fri_step(beta))
}

/// Opens the queried positions: the two trace points, the negated
/// composition point, and the negated first-layer point, each with its
/// inclusion path, plus the constant last layer.
fn generate_query_phase(
    query_idx: usize,
    trace_lde: &Vec<BaseField>,
    trace_lde_merkleized: &MerkleTree,
    cp_lde: &Vec<BaseField>,
    cp_lde_merkleized: &MerkleTree,
    fri_layer_deg_1_eval: &Vec<BaseField>,
    fri_layer_deg_1_merkleized: &MerkleTree,
    fri_layer_deg_0_eval: BaseField,
) -> (r: ProofQueryPhase)
    requires
        query_idx < 6,
        trace_lde@.len() == 8,
        cp_lde@.len() == 8,
        fri_layer_deg_1_eval@.len() == 4,
        tree_wf(trace_lde_merkleized@, seq_vals(trace_lde@)),
        tree_wf(cp_lde_merkleized@, seq_vals(cp_lde@)),
        tree_wf(fri_layer_deg_1_merkleized@, seq_vals(fri_layer_deg_1_eval@)),
    ensures
        r.trace_x.0@ == seq_vals(trace_lde@)[query_idx as int],
        path_view(r.trace_x.1.path@) == path_model(trace_lde_merkleized@, query_idx as int),
        r.trace_gx.0@ == seq_vals(trace_lde@)[query_idx + 2],
        path_view(r.trace_gx.1.path@) == path_model(trace_lde_merkleized@, query_idx + 2),
        r.cp_minus_x.0@ == seq_vals(cp_lde@)[(query_idx as int + 4) % 8],
        path_view(r.cp_minus_x.1.path@) == path_model(
            cp_lde_merkleized@,
            (query_idx as int + 4) % 8,
        ),
        r.fri_layer_deg_1_minus_x.0@ == seq_vals(fri_layer_deg_1_eval@)[(query_idx as int % 4 + 2)
            % 4],
        path_view(r.fri_layer_deg_1_minus_x.1.path@) == path_model(
            fri_layer_deg_1_merkleized@,
            (query_idx as int % 4 + 2) % 4,
        ),
        r.fri_layer_deg_0_x == fri_layer_deg_0_eval,
{
    let t_x = trace_lde[query_idx];
    proof {
        assert(seq_vals(trace_lde@)[query_idx as int] == t_x@);
    }
    let t_x_proof = match MerklePath::new(trace_lde_merkleized, query_idx) {
        Ok(p) => p,
        Err(_) => vstd::pervasive::unreached(),
    };

    let t_gx = trace_lde[query_idx + 2];
    proof {
        assert(seq_vals(trace_lde@)[query_idx + 2] == t_gx@);
    }
    let t_gx_proof = match MerklePath::new(trace_lde_merkleized, query_idx + 2) {
        Ok(p) => p,
        Err(_) => vstd::pervasive::unreached(),
    };

    // Query composition polynomial (domain size 8): negation in the
    // size-8 subgroup shifts the index by half the domain.
    let query_idx_minus_x = (query_idx + 4) % 8;
    let cp_minus_x = cp_lde[query_idx_minus_x];
    proof {
        assert(seq_vals(cp_lde@)[query_idx_minus_x as int] == cp_minus_x@);
    }
    let cp_minus_x_proof = match MerklePath::new(cp_lde_merkleized, query_idx_minus_x) {
        Ok(p) => p,
        Err(_) => vstd::pervasive::unreached(),
    };

    // Query FRI layer of degree 1 (domain size 4): the squared domain
    // repeats with period 4, and negation there shifts by 2.
    let query_idx_fri_1_minus_x = (query_idx % 4 + 2) % 4;
    let fri_layer_deg_1_minus_x = fri_layer_deg_1_eval[query_idx_fri_1_minus_x];
    proof {
        assert(seq_vals(fri_layer_deg_1_eval@)[query_idx_fri_1_minus_x as int]
            == fri_layer_deg_1_minus_x@);
    }
    let fri_layer_deg_1_minus_x_proof = match MerklePath::new(
        fri_layer_deg_1_merkleized,
        query_idx_fri_1_minus_x,
    ) {
        Ok(p) => p,
        Err(_) => vstd::pervasive::unreached(),
    };

    ProofQueryPhase {
        trace_x: (t_x, t_x_proof),
        trace_gx: (t_gx, t_gx_proof),
        cp_minus_x: (cp_minus_x, cp_minus_x_proof),
        fri_layer_deg_1_minus_x: (fri_layer_deg_1_minus_x, fri_layer_deg_1_minus_x_proof),
        fri_layer_deg_0_x: fri_layer_deg_0_eval,
    }
}

} // verus!
